//! ElGamal signatures: `r = g^k mod p`, `s = (m - d*r) * k^(-1) mod (p-1)`,
//! checked by `e^r * r^s = g^m (mod p)`.
use vstd::prelude::*;
use vstd::arithmetic::div_mod::{
    lemma_add_mod_noop, lemma_mod_bound, lemma_mod_twice, lemma_mul_mod_noop,
    lemma_mul_mod_noop_left, lemma_mul_mod_noop_right,
};
use vstd::arithmetic::power::{lemma_pow_adds, lemma_pow_mod_noop, lemma_pow_multiplies, pow};
use crate::fermat::{lemma_fermat_exponent, lemma_unit_exponent};
use crate::error::{CalcError, CalcResult};
use crate::math::{
    MOD_LIMIT, TRIAL_LIMIT, abs, coprime_mod, gcd, inv_error, inv_mod, is_prime, lemma_coprime_prime, lemma_gcd_mod,
    lemma_inv_mod, mod_inv, mod_pow, mod_pow_defined, rem_euclid, spec_gcd, spec_is_prime,
    spec_mod_pow,
};
use crate::text::{
    Piece, bool_str, bool_text, dec, int_text, pair_text, pair_view, pieces_view, power_line, push_int,
    push_str,
};
use crate::trace::Trace;

verus! {

/// The signature `(r, s)` with public key `e = g^d mod p`.
pub open spec fn elgamal_signature(p: int, g: int, d: int, m: int, k: int) -> (int, int, int) {
    let e = spec_mod_pow(g, d, p);
    let r = spec_mod_pow(g, k, p);
    let inner = (m - (d * r) % (p - 1)) % (p - 1);
    let s = (inner * inv_mod(k, p - 1)) % (p - 1);
    (e, r, s)
}

/// The text lines of the three signing steps.
pub open spec fn sign_lines(p: int, g: int, d: int, m: int, k: int) -> Seq<Seq<Seq<char>>> {
    let (e, r, s) = elgamal_signature(p, g, d, m, k);
    let inner = (m - (d * r) % (p - 1)) % (p - 1);
    let ki = inv_mod(k, p - 1);
    seq![
        seq![power_line("e = g^d mod p = "@, g, d, p, e)],
        seq![power_line("r = g^k mod p = "@, g, k, p, r)],
        seq![
            "k^(-1) mod (p − 1) = "@ + dec(ki),
            "(m − d·r) mod (p − 1) = "@ + dec(m - d * r) + " mod "@ + dec(p - 1) + " = "@ + dec(inner),
            "s = "@ + dec(inner) + " · "@ + dec(ki) + " mod "@ + dec(p - 1) + " = "@ + dec(s),
        ],
    ]
}

/// "ok" or "verletzt".
pub open spec fn check_text(b: bool) -> Seq<char> {
    if b {
        "ok"@
    } else {
        "verletzt"@
    }
}

/// The two lines of the range check of `r` and `s`.
pub open spec fn range_lines(p: int, r: int, s: int) -> Seq<Seq<char>> {
    seq![
        "0 < r < p: 0 < "@ + dec(r) + " < "@ + dec(p) + " → "@ + check_text(0 < r < p),
        "0 < s < p − 1: 0 < "@ + dec(s) + " < "@ + dec(p - 1) + " → "@ + check_text(0 < s < p - 1),
    ]
}

/// The text lines of the three computing steps of the verification.
pub open spec fn verify_lines(p: int, g: int, e: int, m: int, r: int, s: int) -> Seq<Seq<Seq<char>>> {
    let er = spec_mod_pow(e, r, p);
    let rs = spec_mod_pow(r, s, p);
    let (v1, v2) = elgamal_check(p, g, e, m, r, s);
    seq![
        seq![
            "e^r mod p = "@ + dec(er),
            "r^s mod p = "@ + dec(rs),
            "v1 = "@ + dec(er) + " · "@ + dec(rs) + " mod "@ + dec(p) + " = "@ + dec(v1),
        ],
        seq![power_line("v2 = g^m mod p = "@, g, m, p, v2)],
        seq![
            "v1 = "@ + dec(v1) + ",  v2 = "@ + dec(v2),
            if v1 == v2 {
                "v1 = v2 ✓ – Signatur ist gültig."@
            } else {
                "v1 ≠ v2 – Signatur ist ungültig."@
            },
        ],
    ]
}

/// The two sides of the verification: `e^r * r^s mod p` and `g^m mod p`.
pub open spec fn elgamal_check(p: int, g: int, e: int, m: int, r: int, s: int) -> (int, int) {
    ((spec_mod_pow(e, r, p) * spec_mod_pow(r, s, p)) % p, spec_mod_pow(g, m, p))
}

/// The check is sound: for `0 < r < p` and `0 < s < p - 1`, the first side is
/// `e^r · r^s mod p`, the second is `g^m mod p`, and the two agree only when
/// `e^r · r^s = g^m (mod p)`.
pub proof fn lemma_elgamal_check_sound(p: int, g: int, e: int, m: int, r: int, s: int)
    requires
        p > 1,
        0 < r < p,
        0 < s < p - 1,
    ensures
        elgamal_check(p, g, e, m, r, s).0 == (pow(e, r as nat) * pow(r, s as nat)) % p,
        elgamal_check(p, g, e, m, r, s).1 == spec_mod_pow(g, m, p),
        elgamal_check(p, g, e, m, r, s).0 == elgamal_check(p, g, e, m, r, s).1
            ==> (pow(e, r as nat) * pow(r, s as nat)) % p == spec_mod_pow(g, m, p),
{
    lemma_mul_mod_noop(pow(e, r as nat), pow(r, s as nat), p);
}

/// A signature verifies: for a prime `p`, a base `g` that `p` does not divide,
/// any private key `d` and message `m`, and an ephemeral key `k` with an inverse
/// modulo `p - 1`, the signature `(r, s)` with public key `e` satisfies
/// `e^r · r^s = g^m (mod p)`.
pub proof fn lemma_elgamal_signature_verifies(p: int, g: int, d: int, m: int, k: int)
    requires
        spec_is_prime(p),
        g % p != 0,
        coprime_mod(k, p - 1),
    ensures
        ({
            let (e, r, s) = elgamal_signature(p, g, d, m, k);
            elgamal_check(p, g, e, m, r, s).0 == elgamal_check(p, g, e, m, r, s).1
        }),
{
    let q = p - 1;
    let (e, r, s) = elgamal_signature(p, g, d, m, k);
    lemma_coprime_prime(g, p);
    lemma_mod_bound(d, q);
    lemma_mod_bound(k, q);
    lemma_mod_bound(m, q);
    let dq = d % q;
    let kq = k % q;
    lemma_unit_exponent(g, p, d);
    lemma_unit_exponent(g, p, k);
    lemma_unit_exponent(g, p, m);
    let ki = inv_mod(k, q);
    lemma_inv_mod(k, q);
    let inner = (m - (d * r) % q) % q;
    lemma_mod_bound(m - (d * r) % q, q);
    lemma_mod_bound(inner * ki, q);
    lemma_mod_bound(pow(g, kq as nat), p);
    let rn = r as nat;
    let sn = s as nat;
    // e^r = g^(d'·r) and r^s = g^(k'·s), with d' = d mod (p-1) and k' = k mod (p-1)
    lemma_pow_mod_noop(pow(g, dq as nat), rn, p);
    lemma_pow_multiplies(g, dq as nat, rn);
    lemma_pow_mod_noop(pow(g, kq as nat), sn, p);
    lemma_pow_multiplies(g, kq as nat, sn);
    let x = (dq as nat) * rn;
    let y = (kq as nat) * sn;
    lemma_mul_mod_noop(pow(g, x), pow(g, y), p);
    lemma_pow_adds(g, x, y);
    // d'·r + k'·s = d·r + k·s = m (mod p - 1)
    lemma_mul_mod_noop_left(d, r, q);
    lemma_mul_mod_noop_left(k, s, q);
    lemma_mul_mod_noop_right(k, inner * ki, q);
    assert(k * (inner * ki) == (k * ki) * inner) by (nonlinear_arith);
    lemma_mul_mod_noop_left(k * ki, inner, q);
    lemma_mul_mod_noop_left(1, inner, q);
    lemma_mod_twice(m - (d * r) % q, q);
    assert((k * s) % q == inner);
    lemma_add_mod_noop(d * r, k * s, q);
    lemma_mod_bound(d * r, q);
    lemma_add_mod_noop((d * r) % q, m - (d * r) % q, q);
    lemma_mod_twice(d * r, q);
    assert((d * r + k * s) % q == m % q);
    lemma_add_mod_noop(dq * r, kq * s, q);
    assert((x + y) as int == dq * r + kq * s);
    assert(((x + y) as int) % q == m % q);
    lemma_mod_twice(m, q);
    lemma_fermat_exponent(g, p, x + y, (m % q) as nat);
}

/// `m - d·r` and `m - (d·r mod (p - 1))` stay in `i128` for every `r < p`.
pub open spec fn sign_fits(p: int, d: int, m: int) -> bool {
    abs(d) * (p - 1) + abs(m) + p <= i128::MAX
}

/// ElGamal signature of message `m` with private key `d` and ephemeral `k`.
pub fn sign(p: i128, g: i128, d: i128, m: i128, k: i128) -> (r: CalcResult<Trace>)
    requires
        p <= TRIAL_LIMIT,
        spec_is_prime(p as int) ==> p <= MOD_LIMIT && sign_fits(p as int, d as int, m as int),
    ensures
        !spec_is_prime(p as int) ==> (r matches Err(CalcError::NichtPrim(x)) && x@ == dec(
            p as int,
        )),
        spec_is_prime(p as int) && !(0 < k < p - 1) ==> (r matches Err(CalcError::Bereich(x)) && x@
            == "k muss in (0, p−1) liegen"@),
        spec_is_prime(p as int) && 0 < k < p - 1 && spec_gcd(abs(k as int), (p - 1) as nat) != 1
            ==> (r matches Err(CalcError::UngueltigeEingabe(x)) && x@ == "gcd(k, p−1) = "@ + dec(
            spec_gcd(abs(k as int), (p - 1) as nat) as int,
        ) + " ≠ 1"@),
        spec_is_prime(p as int) && 0 < k < p - 1 && spec_gcd(abs(k as int), (p - 1) as nat) == 1
            ==> (if mod_pow_defined(g as int, d as int, p as int) {
            r matches Ok(t) && t.algorithm@ == "ElGamal-Signatur: Erzeugung"@ && t.input_list()
                == seq![
                ("p"@, dec(p as int)),
                ("g"@, dec(g as int)),
                ("d (privat)"@, dec(d as int)),
                ("m (Nachricht)"@, dec(m as int)),
                ("k (ephemeral)"@, dec(k as int)),
            ] && t.results() == seq![
                ("e (öffentlich)"@, dec(elgamal_signature(p as int, g as int, d as int, m as int, k as int).0)),
                ("r"@, dec(elgamal_signature(p as int, g as int, d as int, m as int, k as int).1)),
                ("s"@, dec(elgamal_signature(p as int, g as int, d as int, m as int, k as int).2)),
                ("Signatur (r, s)"@, pair_view(
                    elgamal_signature(p as int, g as int, d as int, m as int, k as int).1,
                    elgamal_signature(p as int, g as int, d as int, m as int, k as int).2,
                )),
            ] && t.well_formed() && t.step_titles() == seq![
                "Öffentlicher Schlüssel e = g^d mod p"@,
                "r = g^k mod p"@,
                "s = (m − d·r) · k^(-1) mod (p − 1)"@,
            ] && t.step_lines(0) == sign_lines(p as int, g as int, d as int, m as int, k as int)[0]
                && t.step_lines(1) == sign_lines(p as int, g as int, d as int, m as int, k as int)[1]
                && t.step_lines(2) == sign_lines(p as int, g as int, d as int, m as int, k as int)[2]
                && t.steps@[0].table is None && t.steps@[1].table is None && t.steps@[2].table is None
        } else {
            r matches Err(CalcError::KeinInverses(x)) && x@ == inv_error(g as int, p as int)
        }),
{
    if !is_prime(p) {
        return Err(CalcError::NichtPrim(int_text(p)));
    }
    if k <= 0 || k >= p - 1 {
        return Err(CalcError::Bereich(String::from_str("k muss in (0, p−1) liegen")));
    }
    let gk = gcd(k, p - 1);
    if gk != 1 {
        let mut x = String::from_str("gcd(k, p−1) = ");
        push_int(&mut x, gk);
        push_str(&mut x, " ≠ 1");
        return Err(CalcError::UngueltigeEingabe(x));
    }
    let mut t = Trace::new("ElGamal-Signatur: Erzeugung");
    t.input_int("p", p);
    t.input_int("g", g);
    t.input_int("d (privat)", d);
    t.input_int("m (Nachricht)", m);
    t.input_int("k (ephemeral)", k);

    let s1 = t.step("Öffentlicher Schlüssel e = g^d mod p");
    proof {
        let ad = abs(d as int) as int;
        assert(ad <= ad * (p - 1)) by (nonlinear_arith) requires ad >= 0, p >= 2;
    }
    let e = match mod_pow(g, d, p) {
        Ok(v) => v,
        Err(err) => return Err(err),
    };
    t.line_of(
        s1,
        &[
            Piece::Text("e = g^d mod p = "),
            Piece::Num(g),
            Piece::Text("^"),
            Piece::Num(d),
            Piece::Text(" mod "),
            Piece::Num(p),
            Piece::Text(" = "),
            Piece::Num(e),
        ],
    );

    let s2 = t.step("r = g^k mod p");
    let r = match mod_pow(g, k, p) {
        Ok(v) => v,
        Err(err) => return Err(err),
    };
    t.line_of(
        s2,
        &[
            Piece::Text("r = g^k mod p = "),
            Piece::Num(g),
            Piece::Text("^"),
            Piece::Num(k),
            Piece::Text(" mod "),
            Piece::Num(p),
            Piece::Text(" = "),
            Piece::Num(r),
        ],
    );

    let s3 = t.step("s = (m − d·r) · k^(-1) mod (p − 1)");
    proof {
        lemma_gcd_mod(k as int, (p - 1) as int);
    }
    let k_inv = match mod_inv(k, p - 1) {
        Ok(v) => v,
        Err(err) => return Err(err),
    };
    proof {
        let ad = abs(d as int) as int;
        assert(-(ad * (p - 1)) <= d * r <= ad * (p - 1)) by (nonlinear_arith)
            requires 0 <= r <= p - 1, ad >= 0, d == ad || d == -ad;
    }
    let dr = d * r;
    let inner = rem_euclid(m - rem_euclid(dr, p - 1), p - 1);
    proof {
        crate::math::lemma_product_fits(inner as int, k_inv as int);
    }
    let s_val = rem_euclid(inner * k_inv, p - 1);
    t.line_of(s3, &[Piece::Text("k^(-1) mod (p − 1) = "), Piece::Num(k_inv)]);
    t.line_of(
        s3,
        &[
            Piece::Text("(m − d·r) mod (p − 1) = "),
            Piece::Num(m - dr),
            Piece::Text(" mod "),
            Piece::Num(p - 1),
            Piece::Text(" = "),
            Piece::Num(inner),
        ],
    );
    t.line_of(
        s3,
        &[
            Piece::Text("s = "),
            Piece::Num(inner),
            Piece::Text(" · "),
            Piece::Num(k_inv),
            Piece::Text(" mod "),
            Piece::Num(p - 1),
            Piece::Text(" = "),
            Piece::Num(s_val),
        ],
    );

    t.result_int("e (öffentlich)", e);
    t.result_int("r", r);
    t.result_int("s", s_val);
    let sig = pair_text(r, s_val);
    t.result("Signatur (r, s)", sig.as_str());
    proof {
        reveal_with_fuel(pieces_view, 9);
        let lines = sign_lines(p as int, g as int, d as int, m as int, k as int);
        assert(t.step_titles() =~= seq![
            "Öffentlicher Schlüssel e = g^d mod p"@,
            "r = g^k mod p"@,
            "s = (m − d·r) · k^(-1) mod (p − 1)"@,
        ]);
        assert(t.step_lines(0) =~= lines[0]);
        assert(t.step_lines(1) =~= lines[1]);
        assert(t.step_lines(2) =~= lines[2]);
    }
    Ok(t)
}

/// Checks an ElGamal signature `(r, s)` of `m` against public key `e`.
pub fn verify(p: i128, g: i128, e: i128, m: i128, r: i128, s: i128) -> (res: CalcResult<Trace>)
    requires
        p <= TRIAL_LIMIT,
        spec_is_prime(p as int) && 0 < r < p && 0 < s < p - 1 ==> p <= MOD_LIMIT && m > i128::MIN,
    ensures
        !spec_is_prime(p as int) ==> (res matches Err(CalcError::NichtPrim(x)) && x@ == dec(
            p as int,
        )),
        spec_is_prime(p as int) && !(0 < r < p && 0 < s < p - 1) ==> (res matches Ok(t)
            && t.algorithm@ == "ElGamal-Signatur: Verifikation"@ && t.input_list() == seq![
            ("p"@, dec(p as int)),
            ("g"@, dec(g as int)),
            ("e (öffentlich)"@, dec(e as int)),
            ("m (Nachricht)"@, dec(m as int)),
            ("r"@, dec(r as int)),
            ("s"@, dec(s as int)),
        ] && t.results() == seq![("Signatur gültig"@, bool_text(false))] && t.well_formed()
            && t.step_titles() == seq!["Bereichsprüfung von r und s"@] && t.step_lines(0)
            == range_lines(p as int, r as int, s as int) && t.steps@[0].table is None),
        spec_is_prime(p as int) && 0 < r < p && 0 < s < p - 1 ==> (if mod_pow_defined(
            g as int,
            m as int,
            p as int,
        ) {
            res matches Ok(t) && t.algorithm@ == "ElGamal-Signatur: Verifikation"@ && t.input_list()
                == seq![
                ("p"@, dec(p as int)),
                ("g"@, dec(g as int)),
                ("e (öffentlich)"@, dec(e as int)),
                ("m (Nachricht)"@, dec(m as int)),
                ("r"@, dec(r as int)),
                ("s"@, dec(s as int)),
            ] && t.results() == seq![
                ("v1"@, dec(elgamal_check(p as int, g as int, e as int, m as int, r as int, s as int).0)),
                ("v2"@, dec(elgamal_check(p as int, g as int, e as int, m as int, r as int, s as int).1)),
                ("Signatur gültig"@, bool_text(
                    elgamal_check(p as int, g as int, e as int, m as int, r as int, s as int).0
                        == elgamal_check(p as int, g as int, e as int, m as int, r as int, s as int).1,
                )),
            ] && t.well_formed() && t.step_titles() == seq![
                "Bereichsprüfung von r und s"@,
                "v1 = e^r · r^s mod p"@,
                "v2 = g^m mod p"@,
                "Vergleich v1 = v2"@,
            ] && t.step_lines(0) == range_lines(p as int, r as int, s as int) && t.step_lines(1)
                == verify_lines(p as int, g as int, e as int, m as int, r as int, s as int)[0]
                && t.step_lines(2) == verify_lines(p as int, g as int, e as int, m as int, r as int, s as int)[1]
                && t.step_lines(3) == verify_lines(p as int, g as int, e as int, m as int, r as int, s as int)[2]
                && forall|i: int| 0 <= i < 4 ==> (#[trigger] t.steps@[i]).table is None
        } else {
            res matches Err(CalcError::KeinInverses(x)) && x@ == inv_error(g as int, p as int)
        }),
{
    if !is_prime(p) {
        return Err(CalcError::NichtPrim(int_text(p)));
    }
    let mut t = Trace::new("ElGamal-Signatur: Verifikation");
    t.input_int("p", p);
    t.input_int("g", g);
    t.input_int("e (öffentlich)", e);
    t.input_int("m (Nachricht)", m);
    t.input_int("r", r);
    t.input_int("s", s);

    let s1 = t.step("Bereichsprüfung von r und s");
    let r_ok = r > 0 && r < p;
    let s_ok = s > 0 && s < p - 1;
    t.line_of(
        s1,
        &[
            Piece::Text("0 < r < p: 0 < "),
            Piece::Num(r),
            Piece::Text(" < "),
            Piece::Num(p),
            Piece::Text(" → "),
            Piece::Text(if r_ok { "ok" } else { "verletzt" }),
        ],
    );
    t.line_of(
        s1,
        &[
            Piece::Text("0 < s < p − 1: 0 < "),
            Piece::Num(s),
            Piece::Text(" < "),
            Piece::Num(p - 1),
            Piece::Text(" → "),
            Piece::Text(if s_ok { "ok" } else { "verletzt" }),
        ],
    );
    proof {
        reveal_with_fuel(pieces_view, 7);
        assert(t.step_lines(0) =~= range_lines(p as int, r as int, s as int));
    }
    if !r_ok || !s_ok {
        t.result("Signatur gültig", bool_str(false));
        assert(t.step_titles() =~= seq!["Bereichsprüfung von r und s"@]);
        return Ok(t);
    }

    let s2 = t.step("v1 = e^r · r^s mod p");
    let er = match mod_pow(e, r, p) {
        Ok(v) => v,
        Err(err) => return Err(err),
    };
    let rs = match mod_pow(r, s, p) {
        Ok(v) => v,
        Err(err) => return Err(err),
    };
    proof {
        crate::math::lemma_product_fits(er as int, rs as int);
    }
    let v1 = rem_euclid(er * rs, p);
    t.line_of(s2, &[Piece::Text("e^r mod p = "), Piece::Num(er)]);
    t.line_of(s2, &[Piece::Text("r^s mod p = "), Piece::Num(rs)]);
    t.line_of(
        s2,
        &[
            Piece::Text("v1 = "),
            Piece::Num(er),
            Piece::Text(" · "),
            Piece::Num(rs),
            Piece::Text(" mod "),
            Piece::Num(p),
            Piece::Text(" = "),
            Piece::Num(v1),
        ],
    );

    proof {
        reveal_with_fuel(pieces_view, 9);
        assert(t.step_lines(1) =~= verify_lines(p as int, g as int, e as int, m as int, r as int, s as int)[0]);
    }
    let s3 = t.step("v2 = g^m mod p");
    let v2 = match mod_pow(g, m, p) {
        Ok(v) => v,
        Err(err) => return Err(err),
    };
    t.line_of(
        s3,
        &[
            Piece::Text("v2 = g^m mod p = "),
            Piece::Num(g),
            Piece::Text("^"),
            Piece::Num(m),
            Piece::Text(" mod "),
            Piece::Num(p),
            Piece::Text(" = "),
            Piece::Num(v2),
        ],
    );

    proof {
        reveal_with_fuel(pieces_view, 9);
        assert(t.step_lines(2) =~= verify_lines(p as int, g as int, e as int, m as int, r as int, s as int)[1]);
    }
    let s4 = t.step("Vergleich v1 = v2");
    let valid = v1 == v2;
    t.line_of(s4, &[Piece::Text("v1 = "), Piece::Num(v1), Piece::Text(",  v2 = "), Piece::Num(v2)]);
    if valid {
        t.line(s4, "v1 = v2 ✓ – Signatur ist gültig.");
    } else {
        t.line(s4, "v1 ≠ v2 – Signatur ist ungültig.");
    }
    t.result_int("v1", v1);
    t.result_int("v2", v2);
    t.result("Signatur gültig", bool_str(valid));
    proof {
        let lines = verify_lines(p as int, g as int, e as int, m as int, r as int, s as int);
        assert(t.step_titles() =~= seq![
            "Bereichsprüfung von r und s"@,
            "v1 = e^r · r^s mod p"@,
            "v2 = g^m mod p"@,
            "Vergleich v1 = v2"@,
        ]);
        assert(t.step_lines(3) =~= lines[2]) by {
            reveal_with_fuel(pieces_view, 5);
        }
    }
    Ok(t)
}

} // verus!
