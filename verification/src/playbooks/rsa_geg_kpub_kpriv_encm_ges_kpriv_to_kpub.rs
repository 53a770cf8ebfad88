//! RSA: does a private key `d` belong to the public key `(n, e)`? Checked by
//! `e · d mod phi(n) = 1` and, given a cipher text, by a round trip.
use vstd::prelude::*;
use crate::algorithms::rsa_signature::lemma_rsa_signature_verifies;
use crate::error::{CalcError, CalcResult};
use crate::math::{MOD_LIMIT, TRIAL_LIMIT, inv_error, mod_pow, mod_pow_defined, rem_euclid, spec_mod_pow};
use crate::playbooks::common::{rsa_factors, two_prime_factor_table, two_prime_table, two_primes};
use crate::text::{bool_str, bool_text, dec, power_line, push_int, push_str, text_int};
use crate::trace::Trace;

verus! {

/// A fitting private exponent passes the round trip for every cipher text: for
/// `n = p·q` with different primes and `e, d >= 0` with `e·d = 1 (mod (p-1)(q-1))`,
/// `(y^d mod n)^e mod n = y` for every `y` in `[0, n)`.
pub proof fn lemma_fitting_key_round_trips(n: int, e: int, d: int, y: int, p: int, q: int)
    requires
        two_primes(n, p, q),
        e >= 0,
        d >= 0,
        (e * d) % ((p - 1) * (q - 1)) == 1,
        0 <= y < n,
    ensures
        spec_mod_pow(spec_mod_pow(y, d, n), e, n) == y,
{
    lemma_rsa_signature_verifies(p, q, e, d, y);
}

/// "bestanden" or "nicht bestanden".
pub open spec fn verdict(b: bool) -> Seq<char> {
    if b {
        "bestanden"@
    } else {
        "nicht bestanden"@
    }
}

/// The closing sentence of the check.
pub open spec fn fit_sentence(b: bool) -> Seq<char> {
    if b {
        "Der private Schlüssel d passt zum öffentlichen Schlüssel (n, e)."@
    } else {
        "Der private Schlüssel d passt NICHT zum öffentlichen Schlüssel (n, e)."@
    }
}

/// The titles of the steps, with the round trip when a cipher text is given.
pub open spec fn key_check_titles(round_trip: bool) -> Seq<Seq<char>> {
    seq!["Vorgehen"@, "(1) Faktorisierung von n"@, "(1) Test e · d mod phi(n) = 1"@] + if round_trip {
        seq!["(2) Round-Trip mit gegebenem y"@, "Gesamtergebnis"@]
    } else {
        seq!["Gesamtergebnis"@]
    }
}

/// The text lines of the steps of the check for `n = p · q`.
pub open spec fn key_check_lines(n: int, e: int, d: int, y: Option<i128>, p: int, q: int) -> Seq<
    Seq<Seq<char>>,
> {
    let phi = (p - 1) * (q - 1);
    let probe = (e * d) % phi;
    let phi_ok = probe == 1;
    let head = seq![
        seq![
            "Ein privater RSA-Schlüssel d ist genau dann gültig, wenn"@,
            "  e · d ≡ 1 mod phi(n)"@,
            "gilt. Das wird hier auf zwei Wegen geprüft:"@,
            "  (1) Faktorisierung von n → phi(n) → Test e·d mod phi(n) = 1"@,
            "  (2) Round-Trip mit gegebenem y: x = y^d mod n und anschließend x^e mod n = y"@,
        ],
        seq!["p = "@ + dec(p) + ",  q = "@ + dec(q) + ",  phi(n) = (p−1)(q−1) = "@ + dec(phi)],
        seq![
            "e · d = "@ + dec(e) + " · "@ + dec(d) + " = "@ + dec(e * d),
            "e · d mod phi(n) = "@ + dec(probe),
            if phi_ok {
                "e · d ≡ 1 mod phi(n) ✓"@
            } else {
                "e · d ≢ 1 mod phi(n) – d passt nicht zu (n, e)."@
            },
        ],
    ];
    match y {
        None => head + seq![seq!["phi(n)-Test: "@ + verdict(phi_ok), fit_sentence(phi_ok)]],
        Some(yv) => {
            let x = spec_mod_pow(yv as int, d, n);
            let back = spec_mod_pow(x, e, n);
            let ok = back == yv;
            head + seq![
                seq![
                    power_line("x = y^d mod n = "@, yv as int, d, n, x),
                    power_line("x^e mod n = "@, x, e, n, back),
                    if ok {
                        "Re-Verschlüsselung ergibt wieder y ✓ – d passt zu (n, e)."@
                    } else {
                        "Re-Verschlüsselung ergibt nicht y – d passt nicht zu (n, e)."@
                    },
                ],
                seq![
                    "phi(n)-Test: "@ + verdict(phi_ok),
                    "Round-Trip-Test: "@ + verdict(ok),
                    fit_sentence(phi_ok && ok),
                ],
            ]
        },
    }
}

/// The steps of a finished check: titles, lines, and the factor table.
pub open spec fn key_check_trace(t: Trace, n: int, e: int, d: int, y: Option<i128>, p: int, q: int) -> bool {
    &&& t.step_titles() == key_check_titles(y is Some)
    &&& forall|i: int| 0 <= i < t.steps@.len() ==> #[trigger] t.step_lines(i) == key_check_lines(
        n,
        e,
        d,
        y,
        p,
        q,
    )[i] && (i != 1 ==> t.steps@[i].table is None)
    &&& t.steps@[1].table matches Some(tb) && two_prime_table(tb, p, q)
}

/// The check stays in `i128`: `n` can be factored, `e · d` fits once `n` is a
/// product of two primes, and the round trip works modulo `n` once a cipher
/// text in `[0, n)` is given as well.
pub open spec fn key_check_fits(n: int, e: int, d: int, y: Option<i128>) -> bool {
    &&& n > 1 ==> n <= TRIAL_LIMIT
    &&& (exists|p: int, q: int| #[trigger] two_primes(n, p, q)) ==> i128::MIN <= e * d <= i128::MAX
    &&& (exists|p: int, q: int| #[trigger] two_primes(n, p, q)) && (y matches Some(yv) && 0 <= yv
        < n) ==> n <= MOD_LIMIT && e > i128::MIN && d > i128::MIN
}

/// Whether `key_check_fits(n, e, d, y)` holds.
pub fn key_check_supported(n: i128, e: i128, d: i128, y: Option<i128>) -> (b: bool)
    ensures
        b == key_check_fits(n as int, e as int, d as int, y),
{
    if n <= 1 {
        proof {
            assert forall|p: int, q: int| !#[trigger] two_primes(n as int, p, q) by {
                if two_primes(n as int, p, q) {
                    assert(p * q >= 4) by (nonlinear_arith) requires p >= 2, q >= 2;
                }
            }
        }
        return true;
    }
    if n > TRIAL_LIMIT {
        return false;
    }
    let (_, pq) = rsa_factors(n);
    match pq {
        None => true,
        Some((p, q)) => {
            assert(two_primes(n as int, p as int, q as int));
            let fits = e.checked_mul(d).is_some();
            let in_range = match y {
                Some(yv) => 0 <= yv && yv < n,
                None => false,
            };
            fits && (!in_range || (n <= MOD_LIMIT && e > i128::MIN && d > i128::MIN))
        },
    }
}

/// Checks whether `d` fits `(n, e)`: `e · d mod phi(n) = 1` and, when `y` is
/// given, `(y^d)^e mod n = y`.
pub fn run(n: i128, e: i128, d: i128, y: Option<i128>) -> (r: CalcResult<Trace>)
    requires
        key_check_fits(n as int, e as int, d as int, y),
    ensures
        n <= 1 ==> (r matches Err(CalcError::Bereich(s)) && s@ == "n muss > 1 sein"@),
        n > 1 && (forall|p: int, q: int| !#[trigger] two_primes(n as int, p, q)) ==> (r matches Err(
            CalcError::UngueltigeEingabe(s),
        ) && s@ == "n ist kein Produkt zweier verschiedener Primzahlen"@),
        forall|p: int, q: int|
            #![trigger two_primes(n as int, p, q)]
            n > 1 && two_primes(n as int, p, q) ==> ({
                let phi = (p - 1) * (q - 1);
                let probe = (e * d) % phi;
                let inputs = seq![
                    ("n"@, dec(n as int)),
                    ("e"@, dec(e as int)),
                    ("d"@, dec(d as int)),
                ];
                (match y {
                    None => r matches Ok(t) && t.algorithm@
                        == "RSA: prüfen, ob privater Schlüssel d zu Kpub = (n, e) passt"@
                        && t.input_list() == inputs && t.results() == seq![
                        ("phi(n)"@, dec(phi)),
                        ("e · d mod phi(n)"@, dec(probe)),
                        ("d passt zu (n, e)"@, bool_text(probe == 1)),
                    ] && t.well_formed(),
                    Some(yv) => if !(0 <= yv < n) {
                        r matches Err(CalcError::Bereich(s)) && s@ == "y muss in [0, n) liegen"@
                    } else if !mod_pow_defined(yv as int, d as int, n as int) || !mod_pow_defined(
                        spec_mod_pow(yv as int, d as int, n as int),
                        e as int,
                        n as int,
                    ) {
                        r matches Err(CalcError::KeinInverses(s)) && s@ == (if !mod_pow_defined(
                            yv as int,
                            d as int,
                            n as int,
                        ) {
                            inv_error(yv as int, n as int)
                        } else {
                            inv_error(spec_mod_pow(yv as int, d as int, n as int), n as int)
                        })
                    } else {
                        let x = spec_mod_pow(yv as int, d as int, n as int);
                        let ok = spec_mod_pow(x, e as int, n as int) == yv;
                        r matches Ok(t) && t.algorithm@
                            == "RSA: prüfen, ob privater Schlüssel d zu Kpub = (n, e) passt"@
                            && t.input_list() == inputs.push(("y (Geheimtext)"@, dec(yv as int)))
                            && t.results() == (if ok {
                            seq![("Wiederhergestellter Klartext x"@, dec(x))]
                        } else {
                            Seq::empty()
                        }) + seq![
                            ("phi(n)"@, dec(phi)),
                            ("e · d mod phi(n)"@, dec(probe)),
                            ("d passt zu (n, e)"@, bool_text(probe == 1 && ok)),
                        ] && t.well_formed()
                    },
                }) && (r matches Ok(t) ==> key_check_trace(t, n as int, e as int, d as int, y, p, q))
            }),
{
    if n <= 1 {
        return Err(CalcError::Bereich(String::from_str("n muss > 1 sein")));
    }
    let mut t = Trace::new("RSA: prüfen, ob privater Schlüssel d zu Kpub = (n, e) passt");
    t.input_int("n", n);
    t.input_int("e", e);
    t.input_int("d", d);
    match y {
        Some(y_v) => t.input_int("y (Geheimtext)", y_v),
        None => {},
    }

    let s1 = t.step("Vorgehen");
    t.line(s1, "Ein privater RSA-Schlüssel d ist genau dann gültig, wenn");
    t.line(s1, "  e · d ≡ 1 mod phi(n)");
    t.line(s1, "gilt. Das wird hier auf zwei Wegen geprüft:");
    t.line(s1, "  (1) Faktorisierung von n → phi(n) → Test e·d mod phi(n) = 1");
    t.line(
        s1,
        "  (2) Round-Trip mit gegebenem y: x = y^d mod n und anschließend x^e mod n = y",
    );

    let s2 = t.step("(1) Faktorisierung von n");
    let (factors, pq) = rsa_factors(n);
    let (p, q) = match pq {
        Some(v) => v,
        None => {
            return Err(
                CalcError::UngueltigeEingabe(
                    String::from_str("n ist kein Produkt zweier verschiedener Primzahlen"),
                ),
            );
        },
    };
    proof {
        assert forall|p2: int, q2: int| #[trigger] two_primes(n as int, p2, q2) implies p2 == p
            && q2 == q by {
            crate::math::lemma_two_prime_factorization(n as int, p2, q2, factors@);
            crate::math::lemma_two_prime_factorization(n as int, p as int, q as int, factors@);
        }
        assert((p - 1) * (q - 1) <= n) by (nonlinear_arith)
            requires 2 <= p, p < q, p * q == n;
        assert((p - 1) * (q - 1) >= 2) by (nonlinear_arith)
            requires 2 <= p, p < q;
    }
    t.table(s2, two_prime_factor_table(&factors, p, q));
    let phi = (p - 1) * (q - 1);
    let mut l1 = text_int("p = ", p);
    push_str(&mut l1, ",  q = ");
    push_int(&mut l1, q);
    push_str(&mut l1, ",  phi(n) = (p−1)(q−1) = ");
    push_int(&mut l1, phi);
    t.line(s2, l1.as_str());

    let s3 = t.step("(1) Test e · d mod phi(n) = 1");
    let ed = e * d;
    let probe = rem_euclid(ed, phi);
    let mut l2 = text_int("e · d = ", e);
    push_str(&mut l2, " · ");
    push_int(&mut l2, d);
    push_str(&mut l2, " = ");
    push_int(&mut l2, ed);
    t.line(s3, l2.as_str());
    let l3 = text_int("e · d mod phi(n) = ", probe);
    t.line(s3, l3.as_str());
    let phi_ok = probe == 1;
    if phi_ok {
        t.line(s3, "e · d ≡ 1 mod phi(n) ✓");
    } else {
        t.line(s3, "e · d ≢ 1 mod phi(n) – d passt nicht zu (n, e).");
    }

    let ghost lines = key_check_lines(n as int, e as int, d as int, y, p as int, q as int);
    proof {
        assert(t.step_lines(0) =~= lines[0]);
        assert(t.step_lines(1) =~= lines[1]);
        assert(t.step_lines(2) =~= lines[2]);
        assert(t.steps@.len() == 3);
    }
    let ghost head = t;
    let mut roundtrip_ok: Option<bool> = None;
    match y {
        Some(y_v) => {
            let s4 = t.step("(2) Round-Trip mit gegebenem y");
            if y_v < 0 || y_v >= n {
                return Err(CalcError::Bereich(String::from_str("y muss in [0, n) liegen")));
            }
            let x = match mod_pow(y_v, d, n) {
                Ok(v) => v,
                Err(err) => return Err(err),
            };
            let y_back = match mod_pow(x, e, n) {
                Ok(v) => v,
                Err(err) => return Err(err),
            };
            let mut l4 = text_int("x = y^d mod n = ", y_v);
            push_str(&mut l4, "^");
            push_int(&mut l4, d);
            push_str(&mut l4, " mod ");
            push_int(&mut l4, n);
            push_str(&mut l4, " = ");
            push_int(&mut l4, x);
            t.line(s4, l4.as_str());
            let mut l5 = text_int("x^e mod n = ", x);
            push_str(&mut l5, "^");
            push_int(&mut l5, e);
            push_str(&mut l5, " mod ");
            push_int(&mut l5, n);
            push_str(&mut l5, " = ");
            push_int(&mut l5, y_back);
            t.line(s4, l5.as_str());
            let ok = y_back == y_v;
            roundtrip_ok = Some(ok);
            if ok {
                t.line(s4, "Re-Verschlüsselung ergibt wieder y ✓ – d passt zu (n, e).");
                t.result_int("Wiederhergestellter Klartext x", x);
            } else {
                t.line(s4, "Re-Verschlüsselung ergibt nicht y – d passt nicht zu (n, e).");
            }
            proof {
                assert(t.step_lines(3) =~= lines[3]);
                assert forall|i: int| 0 <= i < 3 implies t.steps@[i] == head.steps@[i] by {}
            }
        },
        None => {},
    }
    let ghost mid = t;

    let s5 = t.step("Gesamtergebnis");
    let passt = phi_ok && match roundtrip_ok {
        Some(v) => v,
        None => true,
    };
    let mut l6 = String::from_str("phi(n)-Test: ");
    push_str(
        &mut l6,
        if phi_ok {
            "bestanden"
        } else {
            "nicht bestanden"
        },
    );
    t.line(s5, l6.as_str());
    match roundtrip_ok {
        Some(rt) => {
            let mut l7 = String::from_str("Round-Trip-Test: ");
            push_str(
                &mut l7,
                if rt {
                    "bestanden"
                } else {
                    "nicht bestanden"
                },
            );
            t.line(s5, l7.as_str());
        },
        None => {},
    }
    t.line(
        s5,
        if passt {
            "Der private Schlüssel d passt zum öffentlichen Schlüssel (n, e)."
        } else {
            "Der private Schlüssel d passt NICHT zum öffentlichen Schlüssel (n, e)."
        },
    );

    t.result_int("phi(n)", phi);
    t.result_int("e · d mod phi(n)", probe);
    t.result("d passt zu (n, e)", bool_str(passt));
    proof {
        let k = s5 as int;
        assert(t.step_lines(k) =~= lines[k]);
        assert forall|i: int| 0 <= i < k implies t.steps@[i] == mid.steps@[i] by {}
        assert(t.step_titles() =~= key_check_titles(y is Some));
    }
    Ok(t)
}

} // verus!
