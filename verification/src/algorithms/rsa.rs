//! RSA: key generation, encryption, decryption.
use vstd::prelude::*;
use vstd::arithmetic::div_mod::{
    lemma_add_mod_noop, lemma_div_pos_is_pos, lemma_fundamental_div_mod, lemma_mod_self_0,
    lemma_small_mod, lemma_sub_mod_noop,
};
use vstd::arithmetic::power::{
    lemma_pow1, lemma_pow_adds, lemma_pow_increases, lemma_pow_mod_noop, lemma_pow_multiplies, pow,
};
use crate::fermat::{lemma_fermat_lift, lemma_two_primes_divide};
use crate::error::{CalcError, CalcResult};
use crate::math::{
    MOD_LIMIT, TRIAL_LIMIT, abs, coprime_mod, gcd, inv_error, inv_mod, is_prime, lemma_gcd_mod,
    lemma_inv_mod, mod_inv,
    mod_pow, mod_pow_defined, spec_gcd, spec_is_prime, spec_mod_pow,
};
use crate::text::{Piece, dec, pair_text, pair_view, pieces_view, power_line, push_int, push_str};
use crate::trace::Trace;

verus! {

/// `phi(n) = (p - 1)(q - 1)` for `n = p * q`.
pub open spec fn rsa_phi(p: int, q: int) -> int {
    (p - 1) * (q - 1)
}

/// The round trip with nonnegative exponents.
proof fn lemma_rsa_roundtrip_nonneg(p: int, q: int, e: int, d: int, m: int)
    requires
        spec_is_prime(p),
        spec_is_prime(q),
        p != q,
        e >= 0,
        d >= 0,
        (e * d) % rsa_phi(p, q) == 1,
        0 <= m < p * q,
    ensures
        spec_mod_pow(spec_mod_pow(m, e, p * q), d, p * q) == m,
{
    let n = p * q;
    let phi = rsa_phi(p, q);
    assert(n > 0 && phi > 0) by (nonlinear_arith) requires p >= 2, q >= 2, n == p * q, phi == (p - 1) * (q - 1);
    let ed = (e * d) as nat;
    assert(e * d >= 0) by (nonlinear_arith) requires e >= 0, d >= 0;
    lemma_pow_mod_noop(pow(m, e as nat), d as nat, n);
    lemma_pow_multiplies(m, e as nat, d as nat);
    assert((e as nat) * (d as nat) == ed);
    let x = pow(m, ed);
    // e·d = t·phi + 1
    lemma_fundamental_div_mod(e * d, phi);
    let t = (e * d) / phi;
    lemma_div_pos_is_pos(e * d, phi);
    let tp = (t * (q - 1)) as nat;
    let tq = (t * (p - 1)) as nat;
    assert(t * (q - 1) >= 0 && t * (p - 1) >= 0) by (nonlinear_arith) requires t >= 0, p >= 2, q >= 2;
    assert(ed == tp * ((p - 1) as nat) + 1 && ed == tq * ((q - 1) as nat) + 1) by (nonlinear_arith)
        requires
            e * d == phi * t + 1,
            phi == (p - 1) * (q - 1),
            ed == e * d,
            tp == t * (q - 1),
            tq == t * (p - 1),
            p >= 2,
            q >= 2;
    lemma_fermat_lift(m, p, tp);
    lemma_fermat_lift(m, q, tq);
    // x >= m, so x - m is a common multiple of p and q
    assert(ed >= 1);
    if m > 0 {
        lemma_pow_increases(m as nat, 1, ed);
        lemma_pow1(m);
    } else {
        lemma_pow_adds(0, (ed - 1) as nat, 1);
        lemma_pow1(0);
    }
    lemma_sub_mod_noop(x, m, p);
    lemma_sub_mod_noop(x, m, q);
    lemma_mod_self_0(p);
    lemma_mod_self_0(q);
    lemma_small_mod(0, p as nat);
    lemma_small_mod(0, q as nat);
    lemma_two_primes_divide(x - m, p, q);
    lemma_add_mod_noop(x - m, m, n);
    lemma_small_mod(m as nat, n as nat);
}

/// Euler's theorem for `n = p·q`: `m^((p-1)(q-1)) = 1 (mod n)` for `m` prime to `n`.
proof fn lemma_rsa_euler(p: int, q: int, m: int)
    requires
        spec_is_prime(p),
        spec_is_prime(q),
        p != q,
        coprime_mod(m, p * q),
    ensures
        pow(m, rsa_phi(p, q) as nat) % (p * q) == 1,
{
    let n = p * q;
    let phi = rsa_phi(p, q);
    assert(phi >= 2 && n >= 6) by (nonlinear_arith)
        requires p >= 2, q >= 2, p != q, phi == (p - 1) * (q - 1), n == p * q;
    let mr = m % n;
    vstd::arithmetic::div_mod::lemma_mod_bound(m, n);
    vstd::arithmetic::div_mod::lemma_mod_twice(m, n);
    lemma_small_mod(1, phi as nat);
    // (m mod n)^(phi + 1) = m mod n (mod n)
    vstd::arithmetic::div_mod::lemma_mod_multiples_vanish(1, 1, phi);
    assert((phi + 1) * 1 == phi * 1 + 1);
    lemma_rsa_roundtrip_nonneg(p, q, phi + 1, 1, mr);
    lemma_pow1(pow(mr, (phi + 1) as nat) % n);
    vstd::arithmetic::div_mod::lemma_mod_twice(pow(mr, (phi + 1) as nat), n);
    lemma_pow_adds(mr, phi as nat, 1);
    lemma_pow1(mr);
    // cancel the unit m mod n from m^phi · m = 1 · m
    let x = pow(mr, phi as nat);
    assert(mr * x == x * mr) by (nonlinear_arith);
    assert(mr * 1 == mr);
    assert(coprime_mod(mr, n)) by {
        vstd::arithmetic::div_mod::lemma_mod_twice(m, n);
    }
    crate::fermat::lemma_cancel(mr, x, 1, n);
    lemma_small_mod(1, n as nat);
    lemma_pow_mod_noop(m, phi as nat, n);
}

/// Exponents of a value prime to `n = p·q` count modulo `(p-1)(q-1)`.
proof fn lemma_rsa_exponent(p: int, q: int, m: int, x: nat, y: nat)
    requires
        spec_is_prime(p),
        spec_is_prime(q),
        p != q,
        coprime_mod(m, p * q),
        x % (rsa_phi(p, q) as nat) == y % (rsa_phi(p, q) as nat),
    ensures
        pow(m, x) % (p * q) == pow(m, y) % (p * q),
{
    let n = p * q;
    let phi = rsa_phi(p, q);
    assert(phi >= 2 && n >= 6) by (nonlinear_arith)
        requires p >= 2, q >= 2, p != q, phi == (p - 1) * (q - 1), n == p * q;
    let f = phi as nat;
    lemma_rsa_euler(p, q, m);
    lemma_fundamental_div_mod(x as int, phi);
    lemma_fundamental_div_mod(y as int, phi);
    let qx = x / f;
    let qy = y / f;
    let r = x % f;
    assert(x == qx * f + r) by (nonlinear_arith) requires x == f * qx + r;
    assert(y == qy * f + r) by (nonlinear_arith) requires y == f * qy + r, r == y % f;
    // m^(k phi) = (m^phi)^k = 1 (mod n)
    lemma_pow_adds(m, qx * f, r);
    lemma_pow_adds(m, qy * f, r);
    assert(f * qx == qx * f && f * qy == qy * f) by (nonlinear_arith);
    lemma_pow_multiplies(m, f, qx);
    lemma_pow_multiplies(m, f, qy);
    lemma_pow_mod_noop(pow(m, f), qx, n);
    lemma_pow_mod_noop(pow(m, f), qy, n);
    vstd::arithmetic::power::lemma1_pow(qx);
    vstd::arithmetic::power::lemma1_pow(qy);
    lemma_small_mod(1, n as nat);
    vstd::arithmetic::div_mod::lemma_mul_mod_noop_left(pow(m, qx * f), pow(m, r), n);
    vstd::arithmetic::div_mod::lemma_mul_mod_noop_left(pow(m, qy * f), pow(m, r), n);
}

/// For `m` prime to `n = p·q`, raising to any integer `e` (a negative one through
/// the inverse) is raising to `e mod (p-1)(q-1)`.
proof fn lemma_rsa_unit_exponent(p: int, q: int, m: int, e: int)
    requires
        spec_is_prime(p),
        spec_is_prime(q),
        p != q,
        coprime_mod(m, p * q),
    ensures
        spec_mod_pow(m, e, p * q) == pow(m, (e % rsa_phi(p, q)) as nat) % (p * q),
{
    let n = p * q;
    let phi = rsa_phi(p, q);
    assert(phi >= 2 && n >= 6) by (nonlinear_arith)
        requires p >= 2, q >= 2, p != q, phi == (p - 1) * (q - 1), n == p * q;
    vstd::arithmetic::div_mod::lemma_mod_bound(e, phi);
    vstd::arithmetic::div_mod::lemma_mod_twice(e, phi);
    if e >= 0 {
        lemma_rsa_exponent(p, q, m, e as nat, (e % phi) as nat);
    } else {
        // the inverse of m is m^(phi - 1)
        let w = pow(m, (phi - 1) as nat) % n;
        vstd::arithmetic::div_mod::lemma_mod_bound(pow(m, (phi - 1) as nat), n);
        lemma_rsa_euler(p, q, m);
        lemma_pow_adds(m, 1, (phi - 1) as nat);
        lemma_pow1(m);
        vstd::arithmetic::div_mod::lemma_mul_mod_noop_right(m, pow(m, (phi - 1) as nat), n);
        lemma_small_mod(1, n as nat);
        crate::math::lemma_inv_unique(m, n, w);
        // (m^(phi-1))^(-e) = m^((phi-1)(-e)), and (phi-1)(-e) = e (mod phi)
        let ne = (-e) as nat;
        lemma_pow_mod_noop(pow(m, (phi - 1) as nat), ne, n);
        lemma_pow_multiplies(m, (phi - 1) as nat, ne);
        let big = ((phi - 1) as nat) * ne;
        assert(big == phi * (-e) + e) by (nonlinear_arith) requires big == (phi - 1) * (-e), e < 0;
        vstd::arithmetic::div_mod::lemma_mod_multiples_vanish(-e, e, phi);
        lemma_rsa_exponent(p, q, m, big, (e % phi) as nat);
    }
}

/// RSA decryption undoes encryption: for distinct primes `p` and `q`, an
/// exponent `e` and an exponent `d >= 0` with `e·d = 1 (mod (p-1)(q-1))`, and a
/// message `m` in `[0, p·q)` (prime to `p·q` when `e` is negative, as encryption
/// needs its inverse then), `(m^e mod n)^d mod n = m` where `n = p·q`.
pub proof fn lemma_rsa_roundtrip(p: int, q: int, e: int, d: int, m: int)
    requires
        spec_is_prime(p),
        spec_is_prime(q),
        p != q,
        e < 0 ==> coprime_mod(m, p * q),
        d >= 0,
        (e * d) % rsa_phi(p, q) == 1,
        0 <= m < p * q,
    ensures
        spec_mod_pow(spec_mod_pow(m, e, p * q), d, p * q) == m,
{
    if e >= 0 {
        lemma_rsa_roundtrip_nonneg(p, q, e, d, m);
    } else {
        let phi = rsa_phi(p, q);
        assert(phi >= 2) by (nonlinear_arith)
            requires p >= 2, q >= 2, p != q, phi == (p - 1) * (q - 1);
        let ee = e % phi;
        vstd::arithmetic::div_mod::lemma_mod_bound(e, phi);
        lemma_rsa_unit_exponent(p, q, m, e);
        // (e mod phi) · d = e · d (mod phi)
        vstd::arithmetic::div_mod::lemma_mul_mod_noop_left(e, d, phi);
        assert(ee * d >= 0) by (nonlinear_arith) requires ee >= 0, d >= 0;
        lemma_rsa_roundtrip_nonneg(p, q, ee, d, m);
    }
}

/// The key pair of key generation works: with `d` the inverse of `e` modulo
/// `(p-1)(q-1)`, decrypting the encryption of `m` in `[0, p·q)` gives `m`
/// (for a negative `e`, of every `m` prime to `p·q`, which encryption needs).
pub proof fn lemma_rsa_keypair_roundtrip(p: int, q: int, e: int, m: int)
    requires
        spec_is_prime(p),
        spec_is_prime(q),
        p != q,
        e < 0 ==> coprime_mod(m, p * q),
        coprime_mod(e, rsa_phi(p, q)),
        0 <= m < p * q,
    ensures
        spec_mod_pow(spec_mod_pow(m, e, p * q), inv_mod(e, rsa_phi(p, q)), p * q) == m,
{
    let phi = rsa_phi(p, q);
    assert(phi >= 2) by (nonlinear_arith) requires p >= 2, q >= 2, p != q, phi == (p - 1) * (q - 1);
    lemma_inv_mod(e, phi);
    lemma_small_mod(1, phi as nat);
    lemma_rsa_roundtrip(p, q, e, inv_mod(e, phi), m);
}

/// Complete RSA key pair from primes `p != q` and public exponent `e`.
pub fn keygen(p: i128, q: i128, e: i128) -> (r: CalcResult<Trace>)
    requires
        p <= TRIAL_LIMIT,
        q <= TRIAL_LIMIT,
        e != i128::MIN,
        spec_is_prime(p as int) && spec_is_prime(q as int) ==> p * q <= i128::MAX,
    ensures
        !spec_is_prime(p as int) ==> (r matches Err(CalcError::NichtPrim(m)) && m@ == "p = "@ + dec(
            p as int,
        )),
        spec_is_prime(p as int) && !spec_is_prime(q as int) ==> (r matches Err(
            CalcError::NichtPrim(m),
        ) && m@ == "q = "@ + dec(q as int)),
        spec_is_prime(p as int) && spec_is_prime(q as int) && p == q ==> (r matches Err(
            CalcError::UngueltigeEingabe(m),
        ) && m@ == "p und q müssen verschieden sein"@),
        spec_is_prime(p as int) && spec_is_prime(q as int) && p != q && spec_gcd(
            abs(e as int),
            rsa_phi(p as int, q as int) as nat,
        ) != 1 ==> (r matches Err(CalcError::UngueltigeEingabe(m)) && m@ == "gcd(e, phi(n)) = "@
            + dec(spec_gcd(abs(e as int), rsa_phi(p as int, q as int) as nat) as int) + " ≠ 1"@),
        spec_is_prime(p as int) && spec_is_prime(q as int) && p != q && spec_gcd(
            abs(e as int),
            rsa_phi(p as int, q as int) as nat,
        ) == 1 ==> (r matches Ok(t) && t.algorithm@ == "RSA-Schlüsselerzeugung"@ && t.input_list()
            == seq![("p"@, dec(p as int)), ("q"@, dec(q as int)), ("e"@, dec(e as int))]
            && t.results() == seq![
            ("Öffentlicher Schlüssel (n, e)"@, pair_view(p * q, e as int)),
            ("Privater Schlüssel (n, d)"@, pair_view(p * q, inv_mod(e as int, rsa_phi(p as int, q as int)))),
        ] && t.well_formed() && t.step_titles() == seq![
            "Modulus n und Eulersche Funktion"@,
            "Prüfung des öffentlichen Exponenten e"@,
            "Privater Exponent d"@,
        ] && t.step_lines(0) == seq![
            "n = p · q = "@ + dec(p * q),
            "phi(n) = (p-1)(q-1) = "@ + dec(rsa_phi(p as int, q as int)),
        ] && t.step_lines(1) == seq!["gcd(e, phi(n)) = 1 ✓"@] && t.step_lines(2) == seq![
            "d = e^(-1) mod phi(n) = "@ + dec(inv_mod(e as int, rsa_phi(p as int, q as int))),
        ] && forall|i: int| 0 <= i < 3 ==> (#[trigger] t.steps@[i]).table is None),
{
    if !is_prime(p) {
        let mut m = String::from_str("p = ");
        push_int(&mut m, p);
        return Err(CalcError::NichtPrim(m));
    }
    if !is_prime(q) {
        let mut m = String::from_str("q = ");
        push_int(&mut m, q);
        return Err(CalcError::NichtPrim(m));
    }
    if p == q {
        return Err(CalcError::UngueltigeEingabe(String::from_str("p und q müssen verschieden sein")));
    }
    let mut t = Trace::new("RSA-Schlüsselerzeugung");
    t.input_int("p", p);
    t.input_int("q", q);
    t.input_int("e", e);

    let s1 = t.step("Modulus n und Eulersche Funktion");
    let n = p * q;
    assert((p - 1) * (q - 1) <= p * q) by (nonlinear_arith) requires p >= 2, q >= 2;
    assert((p - 1) * (q - 1) >= 1) by (nonlinear_arith) requires p >= 2, q >= 2;
    let phi = (p - 1) * (q - 1);
    t.line_of(s1, &[Piece::Text("n = p · q = "), Piece::Num(n)]);
    t.line_of(s1, &[Piece::Text("phi(n) = (p-1)(q-1) = "), Piece::Num(phi)]);

    let s2 = t.step("Prüfung des öffentlichen Exponenten e");
    let g = gcd(e, phi);
    if g != 1 {
        let mut m = String::from_str("gcd(e, phi(n)) = ");
        push_int(&mut m, g);
        push_str(&mut m, " ≠ 1");
        return Err(CalcError::UngueltigeEingabe(m));
    }
    t.line(s2, "gcd(e, phi(n)) = 1 ✓");

    let s3 = t.step("Privater Exponent d");
    proof {
        lemma_gcd_mod(e as int, phi as int);
    }
    let d = match mod_inv(e, phi) {
        Ok(d) => d,
        Err(err) => return Err(err),
    };
    t.line_of(s3, &[Piece::Text("d = e^(-1) mod phi(n) = "), Piece::Num(d)]);

    let pubk = pair_text(n, e);
    t.result("Öffentlicher Schlüssel (n, e)", pubk.as_str());
    let privk = pair_text(n, d);
    t.result("Privater Schlüssel (n, d)", privk.as_str());
    proof {
        reveal_with_fuel(pieces_view, 3);
        assert(t.step_titles() =~= seq![
            "Modulus n und Eulersche Funktion"@,
            "Prüfung des öffentlichen Exponenten e"@,
            "Privater Exponent d"@,
        ]);
        assert(t.step_lines(0) =~= seq![
            "n = p · q = "@ + dec(n as int),
            "phi(n) = (p-1)(q-1) = "@ + dec(phi as int),
        ]);
        assert(t.step_lines(1) =~= seq!["gcd(e, phi(n)) = 1 ✓"@]);
        assert(t.step_lines(2) =~= seq!["d = e^(-1) mod phi(n) = "@ + dec(d as int)]);
    }
    Ok(t)
}

/// RSA encryption `c = m^e mod n` for a plaintext `m` in `[0, n)`.
pub fn encrypt(n: i128, e: i128, m: i128) -> (r: CalcResult<Trace>)
    requires
        0 <= m < n ==> n <= MOD_LIMIT && e > i128::MIN,
    ensures
        !(0 <= m < n) ==> (r matches Err(CalcError::Bereich(s)) && s@
            == "Klartext m muss in [0, n) liegen"@),
        0 <= m < n && e < 0 && !coprime_mod(m as int, n as int) ==> (r matches Err(
            CalcError::KeinInverses(s),
        ) && s@ == inv_error(m as int, n as int)),
        0 <= m < n && mod_pow_defined(m as int, e as int, n as int) ==> (r matches Ok(t)
            && t.algorithm@ == "RSA-Verschlüsselung"@ && t.input_list() == seq![
            ("n"@, dec(n as int)),
            ("e"@, dec(e as int)),
            ("m"@, dec(m as int)),
        ] && t.results() == seq![("Chiffrat c"@, dec(spec_mod_pow(m as int, e as int, n as int)))]
            && t.well_formed() && t.step_titles() == seq!["Chiffrat berechnen"@] && t.step_lines(0)
            == seq![
            power_line(
                "c = m^e mod n = "@,
                m as int,
                e as int,
                n as int,
                spec_mod_pow(m as int, e as int, n as int),
            ),
        ] && t.steps@[0].table is None),
{
    if m < 0 || m >= n {
        return Err(CalcError::Bereich(String::from_str("Klartext m muss in [0, n) liegen")));
    }
    let mut t = Trace::new("RSA-Verschlüsselung");
    t.input_int("n", n);
    t.input_int("e", e);
    t.input_int("m", m);
    let s = t.step("Chiffrat berechnen");
    let c = match mod_pow(m, e, n) {
        Ok(c) => c,
        Err(err) => return Err(err),
    };
    t.line_of(
        s,
        &[
            Piece::Text("c = m^e mod n = "),
            Piece::Num(m),
            Piece::Text("^"),
            Piece::Num(e),
            Piece::Text(" mod "),
            Piece::Num(n),
            Piece::Text(" = "),
            Piece::Num(c),
        ],
    );
    t.result_int("Chiffrat c", c);
    proof {
        reveal_with_fuel(pieces_view, 9);
        assert(t.step_titles() =~= seq!["Chiffrat berechnen"@]);
        assert(t.step_lines(0) =~= seq![
            power_line("c = m^e mod n = "@, m as int, e as int, n as int, c as int),
        ]);
    }
    Ok(t)
}

/// RSA decryption `m = c^d mod n`.
pub fn decrypt(n: i128, d: i128, c: i128) -> (r: CalcResult<Trace>)
    requires
        n <= MOD_LIMIT,
        d > i128::MIN,
    ensures
        n <= 0 ==> (r matches Err(CalcError::Bereich(s)) && s@ == "Modulus muss > 0 sein"@),
        n > 0 && d < 0 && !coprime_mod(c as int, n as int) ==> (r matches Err(
            CalcError::KeinInverses(s),
        ) && s@ == inv_error(c as int, n as int)),
        mod_pow_defined(c as int, d as int, n as int) ==> (r matches Ok(t) && t.algorithm@
            == "RSA-Entschlüsselung"@ && t.input_list() == seq![
            ("n"@, dec(n as int)),
            ("d"@, dec(d as int)),
            ("c"@, dec(c as int)),
        ] && t.results() == seq![("Klartext m"@, dec(spec_mod_pow(c as int, d as int, n as int)))]
            && t.well_formed() && t.step_titles() == seq!["Klartext berechnen"@] && t.step_lines(0)
            == seq![
            power_line(
                "m = c^d mod n = "@,
                c as int,
                d as int,
                n as int,
                spec_mod_pow(c as int, d as int, n as int),
            ),
        ] && t.steps@[0].table is None),
{
    let mut t = Trace::new("RSA-Entschlüsselung");
    t.input_int("n", n);
    t.input_int("d", d);
    t.input_int("c", c);
    let s = t.step("Klartext berechnen");
    let m = match mod_pow(c, d, n) {
        Ok(m) => m,
        Err(err) => return Err(err),
    };
    t.line_of(
        s,
        &[
            Piece::Text("m = c^d mod n = "),
            Piece::Num(c),
            Piece::Text("^"),
            Piece::Num(d),
            Piece::Text(" mod "),
            Piece::Num(n),
            Piece::Text(" = "),
            Piece::Num(m),
        ],
    );
    t.result_int("Klartext m", m);
    proof {
        reveal_with_fuel(pieces_view, 9);
        assert(t.step_titles() =~= seq!["Klartext berechnen"@]);
        assert(t.step_lines(0) =~= seq![
            power_line("m = c^d mod n = "@, c as int, d as int, n as int, m as int),
        ]);
    }
    Ok(t)
}

} // verus!
