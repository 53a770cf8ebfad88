//! One round of the Fiat-Shamir identification protocol.
use vstd::prelude::*;
use vstd::arithmetic::div_mod::*;
use vstd::arithmetic::power::*;
use crate::error::{CalcError, CalcResult};
use crate::math::{MOD_LIMIT, mod_pow, rem_euclid, spec_mod_pow};
use crate::text::{Piece, bool_str, bool_text, dec, pieces_view};
use crate::trace::Trace;

verus! {

/// The prover's response `y = k * s^e mod n`.
pub open spec fn fs_response(n: int, s: int, k: int, e: int) -> int {
    if e == 0 {
        k % n
    } else {
        (k * s) % n
    }
}

/// The verifier's two sides: `y^2 mod n` and `x * v^e mod n` with `x = k^2`, `v = s^2`.
pub open spec fn fs_sides(n: int, s: int, k: int, e: int) -> (int, int) {
    (
        spec_mod_pow(fs_response(n, s, k, e), 2, n),
        (spec_mod_pow(k, 2, n) * spec_mod_pow(spec_mod_pow(s, 2, n), e, n)) % n,
    )
}

/// The text lines of the four steps of a round.
pub open spec fn fs_lines(n: int, s: int, k: int, e: int) -> Seq<Seq<Seq<char>>> {
    let (lhs, rhs) = fs_sides(n, s, k, e);
    seq![
        seq!["v = s² mod n = "@ + dec(spec_mod_pow(s, 2, n))],
        seq!["x = k² mod n = "@ + dec(spec_mod_pow(k, 2, n))],
        seq!["y = k · s^e mod n = "@ + dec(fs_response(n, s, k, e))],
        seq![
            "y² mod n = "@ + dec(lhs),
            "x · v^e mod n = "@ + dec(rhs),
            "Akzeptiert: "@ + bool_text(lhs == rhs),
        ],
    ]
}

proof fn lemma_square(z: int)
    ensures
        pow(z, 2) == z * z,
{
    lemma_pow_adds(z, 1, 1);
    lemma_pow1(z);
}

/// An honest round is always accepted: `y^2 = x * v^e (mod n)`.
pub proof fn lemma_fs_complete(n: int, s: int, k: int, e: int)
    requires
        n > 0,
        e == 0 || e == 1,
    ensures
        fs_sides(n, s, k, e).0 == fs_sides(n, s, k, e).1,
{
    let y = fs_response(n, s, k, e);
    let x = pow(k, 2) % n;
    let v = pow(s, 2) % n;
    assert(spec_mod_pow(k, 2, n) == x);
    assert(spec_mod_pow(s, 2, n) == v);
    lemma_mod_bound(v, n);
    lemma_mod_twice(pow(k, 2), n);
    lemma_pow_mod_noop(y, 2, n);
    if e == 0 {
        lemma_pow0(v);
        assert(spec_mod_pow(v, e, n) == 1int % n);
        lemma_pow_mod_noop(k, 2, n);
        assert(fs_sides(n, s, k, e).0 == x);
        if n == 1 {
            assert(x == 0);
            assert(fs_sides(n, s, k, e).1 == 0);
        } else {
            lemma_small_mod(1, n as nat);
            assert(x * 1 == x);
        }
    } else {
        lemma_pow1(v);
        lemma_mod_twice(pow(s, 2), n);
        assert(spec_mod_pow(v, e, n) == v);
        lemma_pow_mod_noop(k * s, 2, n);
        assert(fs_sides(n, s, k, e).0 == pow(k * s, 2) % n);
        lemma_square(k * s);
        lemma_square(k);
        lemma_square(s);
        assert((k * s) * (k * s) == (k * k) * (s * s)) by (nonlinear_arith);
        lemma_mul_mod_noop_left(pow(k, 2), v, n);
        lemma_mul_mod_noop_right(pow(k, 2), pow(s, 2), n);
        assert(fs_sides(n, s, k, e).1 == (x * v) % n);
    }
}

/// One Fiat-Shamir round: public key `v = s^2`, commitment `x = k^2`,
/// response to challenge `e`, and the verifier's check.
pub fn round(n: i128, s: i128, k: i128, e: i128) -> (r: CalcResult<Trace>)
    requires
        e == 0 || e == 1 ==> n <= MOD_LIMIT,
        e == 1 && n > 0 ==> i128::MIN <= k * s <= i128::MAX,
    ensures
        !(e == 0 || e == 1) ==> (r matches Err(CalcError::UngueltigeEingabe(m)) && m@
            == "e muss 0 oder 1 sein"@),
        (e == 0 || e == 1) && n <= 0 ==> (r matches Err(CalcError::Bereich(m)) && m@
            == "Modulus muss > 0 sein"@),
        (e == 0 || e == 1) && n > 0 ==> (r matches Ok(t) && t.algorithm@
            == "Fiat-Shamir Identifikationsprotokoll (eine Runde)"@ && t.input_list() == seq![
            ("n"@, dec(n as int)),
            ("s (Geheimnis)"@, dec(s as int)),
            ("k (Commitment-Zufall)"@, dec(k as int)),
            ("e (Challenge)"@, dec(e as int)),
        ] && t.results() == seq![("Akzeptiert"@, bool_text(true))] && t.well_formed()
            && t.step_titles() == seq!["Public Key"@, "Commitment"@, "Response"@, "Verifikation"@]
            && (forall|i: int| 0 <= i < 4 ==> #[trigger] t.step_lines(i) == fs_lines(
            n as int,
            s as int,
            k as int,
            e as int,
        )[i] && t.steps@[i].table is None)),
{
    if !(e == 0 || e == 1) {
        return Err(CalcError::UngueltigeEingabe(String::from_str("e muss 0 oder 1 sein")));
    }
    let mut t = Trace::new("Fiat-Shamir Identifikationsprotokoll (eine Runde)");
    t.input_int("n", n);
    t.input_int("s (Geheimnis)", s);
    t.input_int("k (Commitment-Zufall)", k);
    t.input_int("e (Challenge)", e);

    let s1 = t.step("Public Key");
    let v = match mod_pow(s, 2, n) {
        Ok(v) => v,
        Err(err) => return Err(err),
    };
    t.line_of(s1, &[Piece::Text("v = s² mod n = "), Piece::Num(v)]);

    let s2 = t.step("Commitment");
    let x = match mod_pow(k, 2, n) {
        Ok(v) => v,
        Err(err) => return Err(err),
    };
    t.line_of(s2, &[Piece::Text("x = k² mod n = "), Piece::Num(x)]);

    let s3 = t.step("Response");
    let y = if e == 0 {
        rem_euclid(k, n)
    } else {
        rem_euclid(k * s, n)
    };
    t.line_of(s3, &[Piece::Text("y = k · s^e mod n = "), Piece::Num(y)]);

    let s4 = t.step("Verifikation");
    let lhs = match mod_pow(y, 2, n) {
        Ok(v) => v,
        Err(err) => return Err(err),
    };
    let ve = match mod_pow(v, e, n) {
        Ok(v) => v,
        Err(err) => return Err(err),
    };
    proof {
        crate::math::lemma_product_fits(x as int, ve as int);
    }
    let rhs = rem_euclid(x * ve, n);
    t.line_of(s4, &[Piece::Text("y² mod n = "), Piece::Num(lhs)]);
    t.line_of(s4, &[Piece::Text("x · v^e mod n = "), Piece::Num(rhs)]);
    let ok = lhs == rhs;
    proof {
        lemma_fs_complete(n as int, s as int, k as int, e as int);
    }
    let mut l = String::from_str("Akzeptiert: ");
    crate::text::push_str(&mut l, bool_str(ok));
    t.line(s4, l.as_str());

    t.result("Akzeptiert", bool_str(ok));
    proof {
        reveal_with_fuel(pieces_view, 3);
        let lines = fs_lines(n as int, s as int, k as int, e as int);
        assert(t.step_titles() =~= seq!["Public Key"@, "Commitment"@, "Response"@, "Verifikation"@]);
        assert(t.step_lines(0) =~= lines[0]);
        assert(t.step_lines(1) =~= lines[1]);
        assert(t.step_lines(2) =~= lines[2]);
        assert(t.step_lines(3) =~= lines[3]);
    }
    Ok(t)
}

} // verus!
