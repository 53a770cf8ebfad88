//! ElGamal's multiplicative homomorphism: from an original cipher text and a
//! combined one, the factor `m2` that the combination multiplied in.
use vstd::prelude::*;
use crate::error::{CalcError, CalcResult};
use crate::math::{
    MOD_LIMIT, TRIAL_LIMIT, abs, coprime_mod, inv_error, inv_mod, is_prime, lemma_coprime_prime, lemma_inv_mod,
    lemma_inv_product, mod_inv, mod_pow, mod_pow_defined, rem_euclid, spec_is_prime, spec_mod_pow,
};
use crate::modulo::cyclic_groups::lemma_coprime_below_prime;
use crate::text::{dec, int_text, power_line, push_int, push_str, text_int};
use crate::trace::Trace;

verus! {

/// ElGamal decryption `b · (a^d)^-1 mod p`.
pub open spec fn elgamal_dec(p: int, d: int, a: int, b: int) -> int {
    (b * inv_mod(spec_mod_pow(a, d, p), p)) % p
}

/// The decryption of `(a, b)` is defined: `a^d` exists and is invertible.
pub open spec fn dec_defined(p: int, d: int, a: int) -> bool {
    mod_pow_defined(a, d, p) && coprime_mod(spec_mod_pow(a, d, p), p)
}

/// The message when `(a, b)` cannot be decrypted: no inverse of `a` (negative
/// `d`) or of `a^d`.
pub open spec fn dec_error(p: int, d: int, a: int) -> Seq<char> {
    if !mod_pow_defined(a, d, p) {
        inv_error(a, p)
    } else {
        inv_error(spec_mod_pow(a, d, p), p)
    }
}

/// The lines of a decryption step: the mask, its inverse and the plain text.
pub open spec fn dec_lines(p: int, d: int, a: int, b: int, names: (Seq<char>, Seq<char>, Seq<char>)) -> Seq<
    Seq<char>,
> {
    let s = spec_mod_pow(a, d, p);
    seq![
        power_line(names.0, a, d, p, s),
        names.1 + dec(inv_mod(s, p)),
        names.2 + dec(elgamal_dec(p, d, a, b)),
    ]
}

/// The lines of the alternative approach: the explanation and, where the
/// inverses exist, the split cipher text `(a2, b2)` and its decryption.
pub open spec fn split_lines(p: int, d: int, a1: int, b1: int, a: int, b: int) -> Seq<Seq<char>> {
    let a2 = (a * inv_mod(a1, p)) % p;
    let b2 = (b * inv_mod(b1, p)) % p;
    seq![
        "Zerlege den kombinierten Geheimtext direkt in die Erweiterungs-Komponente:"@,
        "  a2 = a · a1^(-1) mod p,  b2 = b · b1^(-1) mod p"@,
        "und entschlüssele anschließend (a2, b2) klassisch via m2 = b2 · (a2^d)^(-1) mod p."@,
    ] + if coprime_mod(a1, p) && coprime_mod(b1, p) {
        seq!["Konkret: a2 = "@ + dec(a2) + ", b2 = "@ + dec(b2)] + if dec_defined(p, d, a2) {
            seq!["Entschlüsselung von (a2, b2) ergibt m2 = "@ + dec(elgamal_dec(p, d, a2, b2))]
        } else {
            Seq::empty()
        }
    } else {
        Seq::empty()
    }
}

/// The text lines of the six steps.
pub open spec fn homomorph_lines(p: int, d: int, a1: int, b1: int, a: int, b: int) -> Seq<
    Seq<Seq<char>>,
> {
    let m1 = elgamal_dec(p, d, a1, b1);
    let mt = elgamal_dec(p, d, a, b);
    let mi = inv_mod(m1, p);
    let m2 = (mt * mi) % p;
    seq![
        seq![
            "(a1, b1) · (a2, b2) = (a1·a2 mod p, b1·b2 mod p) verschlüsselt m1·m2 mod p."@,
            "Daher gilt für den kombinierten Geheimtext: Dec(a, b) = m1 · m2 mod p."@,
        ],
        dec_lines(
            p,
            d,
            a1,
            b1,
            ("a1^d mod p = "@, "(a1^d)^(-1) mod p = "@, "m1 = b1 · (a1^d)^(-1) mod p = "@),
        ),
        dec_lines(
            p,
            d,
            a,
            b,
            ("a^d mod p = "@, "(a^d)^(-1) mod p = "@, "m_total = b · (a^d)^(-1) mod p = "@),
        ),
        seq![
            "m1^(-1) mod p = "@ + dec(mi),
            "m2 = m_total · m1^(-1) mod p = "@ + dec(mt) + " · "@ + dec(mi) + " mod "@ + dec(p)
                + " = "@ + dec(m2),
        ],
        seq!["m1 · m2 mod p = "@ + dec((m1 * m2) % p) + " (erwartet: m_total = "@ + dec(mt) + ")"@],
        split_lines(p, d, a1, b1, a, b),
    ]
}

/// Decrypts `(a, b)` with `d`: `b · (a^d)^-1 mod p`.
fn decrypt(p: i128, d: i128, a: i128, b: i128) -> (r: CalcResult<(i128, i128, i128)>)
    requires
        2 <= p <= MOD_LIMIT,
        d > i128::MIN,
        (p - 1) * abs(b as int) <= i128::MAX,
    ensures
        !dec_defined(p as int, d as int, a as int) ==> (r matches Err(CalcError::KeinInverses(x))
            && x@ == dec_error(p as int, d as int, a as int)),
        dec_defined(p as int, d as int, a as int) ==> (r matches Ok((s, si, m)) && s
            == spec_mod_pow(a as int, d as int, p as int) && si == inv_mod(s as int, p as int)
            && m == elgamal_dec(p as int, d as int, a as int, b as int) && 0 <= m < p),
{
    let s = match mod_pow(a, d, p) {
        Ok(v) => v,
        Err(e) => return Err(e),
    };
    let si = match mod_inv(s, p) {
        Ok(v) => v,
        Err(e) => return Err(e),
    };
    proof {
        let ab = abs(b as int) as int;
        assert(-((p - 1) * ab) <= b * si <= (p - 1) * ab) by (nonlinear_arith)
            requires 0 <= si <= p - 1, ab >= 0, b == ab || b == -ab;
    }
    let m = rem_euclid(b * si, p);
    Ok((s, si, m))
}

/// Decrypts the original cipher text `(a1, b1)` to `m1` and the combined one
/// `(a, b)` to `m1 · m2`, and isolates `m2 = (m1 · m2) · m1^-1 mod p`.
pub fn run(
    p: i128,
    g: i128,
    e: i128,
    d: i128,
    a1: i128,
    b1: i128,
    a_total: i128,
    b_total: i128,
) -> (r: CalcResult<Trace>)
    requires
        p <= TRIAL_LIMIT,
        spec_is_prime(p as int) ==> p <= MOD_LIMIT,
        spec_is_prime(p as int) ==> d > i128::MIN,
        spec_is_prime(p as int) ==> (p - 1) * abs(b1 as int) <= i128::MAX,
        spec_is_prime(p as int) ==> (p - 1) * abs(a_total as int) <= i128::MAX,
        spec_is_prime(p as int) ==> (p - 1) * abs(b_total as int) <= i128::MAX,
    ensures
        !spec_is_prime(p as int) ==> (r matches Err(CalcError::NichtPrim(s)) && s@ == dec(
            p as int,
        )),
        spec_is_prime(p as int) && !(dec_defined(p as int, d as int, a1 as int) && dec_defined(
            p as int,
            d as int,
            a_total as int,
        )) ==> (r matches Err(CalcError::KeinInverses(s)) && s@ == (if !dec_defined(
            p as int,
            d as int,
            a1 as int,
        ) {
            dec_error(p as int, d as int, a1 as int)
        } else {
            dec_error(p as int, d as int, a_total as int)
        })),
        spec_is_prime(p as int) && dec_defined(p as int, d as int, a1 as int) && dec_defined(
            p as int,
            d as int,
            a_total as int,
        ) ==> ({
            let m1 = elgamal_dec(p as int, d as int, a1 as int, b1 as int);
            let mt = elgamal_dec(p as int, d as int, a_total as int, b_total as int);
            let m2 = (mt * inv_mod(m1, p as int)) % (p as int);
            if m1 == 0 {
                r matches Err(CalcError::KeineLoesung(s)) && s@
                    == "m1 = 0, m2 nicht eindeutig bestimmbar"@
            } else {
                (m1 * m2) % (p as int) == mt && (r matches Ok(t) && t.algorithm@
                    == "ElGamal: Multiplikativer Homomorphismus"@ && t.input_list() == seq![
                    ("p"@, dec(p as int)),
                    ("g"@, dec(g as int)),
                    ("e (öffentlich)"@, dec(e as int)),
                    ("d (privat)"@, dec(d as int)),
                    ("a1"@, dec(a1 as int)),
                    ("b1"@, dec(b1 as int)),
                    ("a (kombiniert)"@, dec(a_total as int)),
                    ("b (kombiniert)"@, dec(b_total as int)),
                ] && t.results() == seq![
                    ("m1"@, dec(m1)),
                    ("m_total = m1 · m2"@, dec(mt)),
                    ("Erweiterungsfaktor m2"@, dec(m2)),
                ] && t.well_formed() && t.step_titles() == seq![
                    "Eigenschaft des multiplikativen Homomorphismus"@,
                    "Entschlüsselung des Original-Chiffrats (a1, b1) → m1"@,
                    "Entschlüsselung des kombinierten Chiffrats (a, b) → m1·m2"@,
                    "Erweiterungsfaktor m2 isolieren"@,
                    "Probe"@,
                    "Alternativer Ansatz (Aufgabe b)"@,
                ] && forall|i: int| 0 <= i < 6 ==> #[trigger] t.step_lines(i) == homomorph_lines(
                    p as int,
                    d as int,
                    a1 as int,
                    b1 as int,
                    a_total as int,
                    b_total as int,
                )[i] && t.steps@[i].table is None)
            }
        }),
{
    if !is_prime(p) {
        return Err(CalcError::NichtPrim(int_text(p)));
    }
    let mut t = Trace::new("ElGamal: Multiplikativer Homomorphismus");
    t.input_int("p", p);
    t.input_int("g", g);
    t.input_int("e (öffentlich)", e);
    t.input_int("d (privat)", d);
    t.input_int("a1", a1);
    t.input_int("b1", b1);
    t.input_int("a (kombiniert)", a_total);
    t.input_int("b (kombiniert)", b_total);

    let s1 = t.step("Eigenschaft des multiplikativen Homomorphismus");
    t.line(s1, "(a1, b1) · (a2, b2) = (a1·a2 mod p, b1·b2 mod p) verschlüsselt m1·m2 mod p.");
    t.line(s1, "Daher gilt für den kombinierten Geheimtext: Dec(a, b) = m1 · m2 mod p.");

    let s2 = t.step("Entschlüsselung des Original-Chiffrats (a1, b1) → m1");
    let (s_a1, s_a1_inv, m1) = match decrypt(p, d, a1, b1) {
        Ok(v) => v,
        Err(err) => return Err(err),
    };
    let mut l1 = text_int("a1^d mod p = ", a1);
    push_str(&mut l1, "^");
    push_int(&mut l1, d);
    push_str(&mut l1, " mod ");
    push_int(&mut l1, p);
    push_str(&mut l1, " = ");
    push_int(&mut l1, s_a1);
    t.line(s2, l1.as_str());
    let l2 = text_int("(a1^d)^(-1) mod p = ", s_a1_inv);
    t.line(s2, l2.as_str());
    let l3 = text_int("m1 = b1 · (a1^d)^(-1) mod p = ", m1);
    t.line(s2, l3.as_str());

    let s3 = t.step("Entschlüsselung des kombinierten Chiffrats (a, b) → m1·m2");
    let (s_a, s_a_inv, m_total) = match decrypt(p, d, a_total, b_total) {
        Ok(v) => v,
        Err(err) => return Err(err),
    };
    let mut l4 = text_int("a^d mod p = ", a_total);
    push_str(&mut l4, "^");
    push_int(&mut l4, d);
    push_str(&mut l4, " mod ");
    push_int(&mut l4, p);
    push_str(&mut l4, " = ");
    push_int(&mut l4, s_a);
    t.line(s3, l4.as_str());
    let l5 = text_int("(a^d)^(-1) mod p = ", s_a_inv);
    t.line(s3, l5.as_str());
    let l6 = text_int("m_total = b · (a^d)^(-1) mod p = ", m_total);
    t.line(s3, l6.as_str());

    let s4 = t.step("Erweiterungsfaktor m2 isolieren");
    if m1 == 0 {
        return Err(CalcError::KeineLoesung(String::from_str("m1 = 0, m2 nicht eindeutig bestimmbar")));
    }
    proof {
        lemma_coprime_below_prime(m1 as int, p as int);
        crate::math::lemma_gcd_mod(m1 as int, p as int);
        vstd::arithmetic::div_mod::lemma_small_mod(m1 as nat, p as nat);
    }
    let m1_inv = match mod_inv(m1, p) {
        Ok(v) => v,
        Err(err) => return Err(err),
    };
    proof {
        crate::math::lemma_product_fits(m_total as int, m1_inv as int);
    }
    let m2 = rem_euclid(m_total * m1_inv, p);
    let l7 = text_int("m1^(-1) mod p = ", m1_inv);
    t.line(s4, l7.as_str());
    let mut l8 = text_int("m2 = m_total · m1^(-1) mod p = ", m_total);
    push_str(&mut l8, " · ");
    push_int(&mut l8, m1_inv);
    push_str(&mut l8, " mod ");
    push_int(&mut l8, p);
    push_str(&mut l8, " = ");
    push_int(&mut l8, m2);
    t.line(s4, l8.as_str());

    let s5 = t.step("Probe");
    proof {
        crate::math::lemma_product_fits(m1 as int, m2 as int);
    }
    let probe = rem_euclid(m1 * m2, p);
    proof {
        lemma_inv_mod(m1 as int, p as int);
        lemma_probe(m1 as int, m1_inv as int, m_total as int, p as int);
    }
    let mut l9 = text_int("m1 · m2 mod p = ", probe);
    push_str(&mut l9, " (erwartet: m_total = ");
    push_int(&mut l9, m_total);
    push_str(&mut l9, ")");
    t.line(s5, l9.as_str());

    let s6 = t.step("Alternativer Ansatz (Aufgabe b)");
    t.line(s6, "Zerlege den kombinierten Geheimtext direkt in die Erweiterungs-Komponente:");
    t.line(s6, "  a2 = a · a1^(-1) mod p,  b2 = b · b1^(-1) mod p");
    t.line(
        s6,
        "und entschlüssele anschließend (a2, b2) klassisch via m2 = b2 · (a2^d)^(-1) mod p.",
    );
    let ghost lines = homomorph_lines(
        p as int,
        d as int,
        a1 as int,
        b1 as int,
        a_total as int,
        b_total as int,
    );
    proof {
        assert(t.step_lines(0) =~= lines[0]);
        assert(t.step_lines(1) =~= lines[1]);
        assert(t.step_lines(2) =~= lines[2]);
        assert(t.step_lines(3) =~= lines[3]);
        assert(t.step_lines(4) =~= lines[4]);
    }
    let ghost head = t;
    let ia1 = mod_inv(a1, p);
    let ib1 = mod_inv(b1, p);
    match (ia1, ib1) {
        (Ok(a1_inv), Ok(b1_inv)) => {
            proof {
                let aa = abs(a_total as int) as int;
                assert(-((p - 1) * aa) <= a_total * a1_inv <= (p - 1) * aa) by (nonlinear_arith)
                    requires 0 <= a1_inv <= p - 1, aa >= 0, a_total == aa || a_total == -aa;
                let ab = abs(b_total as int) as int;
                assert(-((p - 1) * ab) <= b_total * b1_inv <= (p - 1) * ab) by (nonlinear_arith)
                    requires 0 <= b1_inv <= p - 1, ab >= 0, b_total == ab || b_total == -ab;
            }
            let a2 = rem_euclid(a_total * a1_inv, p);
            let b2 = rem_euclid(b_total * b1_inv, p);
            let mut l10 = text_int("Konkret: a2 = ", a2);
            push_str(&mut l10, ", b2 = ");
            push_int(&mut l10, b2);
            t.line(s6, l10.as_str());
            match mod_pow(a2, d, p) {
                Ok(s_a2) => {
                    match mod_inv(s_a2, p) {
                        Ok(inv) => {
                            proof {
                            crate::math::lemma_product_fits(b2 as int, inv as int);
                        }
                            let m2_alt = rem_euclid(b2 * inv, p);
                            let l11 = text_int("Entschlüsselung von (a2, b2) ergibt m2 = ", m2_alt);
                            t.line(s6, l11.as_str());
                        },
                        Err(_) => {},
                    }
                },
                Err(_) => {},
            }
        },
        _ => {},
    }

    t.result_int("m1", m1);
    t.result_int("m_total = m1 · m2", m_total);
    t.result_int("Erweiterungsfaktor m2", m2);
    proof {
        assert(t.step_lines(5) =~= lines[5]);
        assert forall|i: int| 0 <= i < 5 implies t.steps@[i] == head.steps@[i] by {}
        assert(t.step_titles() =~= seq![
            "Eigenschaft des multiplikativen Homomorphismus"@,
            "Entschlüsselung des Original-Chiffrats (a1, b1) → m1"@,
            "Entschlüsselung des kombinierten Chiffrats (a, b) → m1·m2"@,
            "Erweiterungsfaktor m2 isolieren"@,
            "Probe"@,
            "Alternativer Ansatz (Aufgabe b)"@,
        ]);
    }
    Ok(t)
}

/// Raising to `d` modulo a prime distributes over a product.
proof fn lemma_pow_product(a1: int, a2: int, d: int, p: int)
    requires
        spec_is_prime(p),
        d < 0 ==> coprime_mod(a1, p) && coprime_mod(a2, p),
    ensures
        mod_pow_defined((a1 * a2) % p, d, p),
        spec_mod_pow((a1 * a2) % p, d, p) == (spec_mod_pow(a1, d, p) * spec_mod_pow(a2, d, p)) % p,
{
    let (x, y) = if d >= 0 {
        (a1, a2)
    } else {
        (inv_mod(a1, p), inv_mod(a2, p))
    };
    let e: nat = if d >= 0 { d as nat } else { (-d) as nat };
    if d < 0 {
        lemma_inv_product(a1, a2, p);
        vstd::arithmetic::div_mod::lemma_mod_twice(a1 * a2, p);
        lemma_coprime_prime(a1 * a2, p);
        lemma_coprime_prime((a1 * a2) % p, p);
        // the inverse depends on the residue only
        assert(inv_mod((a1 * a2) % p, p) == inv_mod(a1 * a2, p));
        vstd::arithmetic::power::lemma_pow_mod_noop(x * y, e, p);
    } else {
        vstd::arithmetic::power::lemma_pow_mod_noop(a1 * a2, e, p);
    }
    vstd::arithmetic::power::lemma_pow_distributes(x, y, e);
    vstd::arithmetic::div_mod::lemma_mul_mod_noop(
        vstd::arithmetic::power::pow(x, e),
        vstd::arithmetic::power::pow(y, e),
        p,
    );
}

/// ElGamal is multiplicatively homomorphic: where both cipher texts `(a1, b1)`
/// and `(a2, b2)` decrypt under `d` modulo the prime `p`, their component-wise
/// product `(a1·a2 mod p, b1·b2 mod p)` decrypts as well, to the product of the
/// two plain texts modulo `p`.
pub proof fn lemma_elgamal_mult_homomorphism(p: int, d: int, a1: int, b1: int, a2: int, b2: int)
    requires
        spec_is_prime(p),
        dec_defined(p, d, a1),
        dec_defined(p, d, a2),
    ensures
        dec_defined(p, d, (a1 * a2) % p),
        elgamal_dec(p, d, (a1 * a2) % p, (b1 * b2) % p) == (elgamal_dec(p, d, a1, b1)
            * elgamal_dec(p, d, a2, b2)) % p,
{
    let s1 = spec_mod_pow(a1, d, p);
    let s2 = spec_mod_pow(a2, d, p);
    lemma_pow_product(a1, a2, d, p);
    lemma_inv_product(s1, s2, p);
    let s = (s1 * s2) % p;
    vstd::arithmetic::div_mod::lemma_mod_twice(s1 * s2, p);
    lemma_coprime_prime(s1 * s2, p);
    lemma_coprime_prime(s, p);
    assert(inv_mod(s, p) == inv_mod(s1 * s2, p));
    let i1 = inv_mod(s1, p);
    let i2 = inv_mod(s2, p);
    // b1 b2 (i1 i2) = (b1 i1)(b2 i2), reduced modulo p on both sides
    vstd::arithmetic::div_mod::lemma_mul_mod_noop((b1 * b2), (i1 * i2), p);
    vstd::arithmetic::div_mod::lemma_mod_twice(b1 * b2, p);
    vstd::arithmetic::div_mod::lemma_mod_twice(i1 * i2, p);
    assert((b1 * b2) * (i1 * i2) == (b1 * i1) * (b2 * i2)) by (nonlinear_arith);
    vstd::arithmetic::div_mod::lemma_mul_mod_noop(b1 * i1, b2 * i2, p);
    vstd::arithmetic::div_mod::lemma_mul_mod_noop((b1 * b2) % p, (i1 * i2) % p, p);
}

/// Multiplying `m1` by `mt · m1^-1` gives back `mt`.
proof fn lemma_probe(m1: int, inv: int, mt: int, p: int)
    requires
        p > 0,
        0 <= mt < p,
        (m1 * inv) % p == 1int % p,
    ensures
        (m1 * ((mt * inv) % p)) % p == mt,
{
    vstd::arithmetic::div_mod::lemma_mul_mod_noop_right(m1, mt * inv, p);
    assert(m1 * (mt * inv) == (m1 * inv) * mt) by (nonlinear_arith);
    vstd::arithmetic::div_mod::lemma_mul_mod_noop_left(m1 * inv, mt, p);
    vstd::arithmetic::div_mod::lemma_mul_mod_noop_left(1, mt, p);
    vstd::arithmetic::div_mod::lemma_small_mod(mt as nat, p as nat);
}

} // verus!
