//! Multiplicative inverse modulo n by the extended Euclidean algorithm, with
//! its table of remainders, quotients and Bezout coefficients.
use vstd::prelude::*;
use vstd::arithmetic::div_mod::*;
use vstd::arithmetic::mul::*;
use crate::error::{CalcError, CalcResult};
use crate::math::{coprime_mod, inv_mod, lemma_inv_unique, rem_euclid, spec_gcd};
use crate::text::{dec, int_text, push_int, push_str, text_int, uint_text};
use crate::trace::{Table, Trace};

verus! {

/// Absolute value over `int`.
pub open spec fn iabs(x: int) -> int {
    if x < 0 {
        -x
    } else {
        x
    }
}

/// The table rows that the extended Euclidean algorithm produces from the
/// state `(r0, r1, s0, s1, t0, t1)`, numbered from `i`: while `r1 != 0`, with
/// `q = r0 / r1`, the row `(i, r0 mod r1, q, s0 - q s1, t0 - q t1)` and the rows
/// of the shifted state.
pub open spec fn euclid_rows(r0: int, r1: int, s0: int, s1: int, t0: int, t1: int, i: int) -> Seq<
    Seq<Seq<char>>,
>
    decreases r1,
    when r1 >= 0
{
    if r1 == 0 {
        Seq::empty()
    } else {
        let q = r0 / r1;
        let r2 = r0 % r1;
        let s2 = s0 - q * s1;
        let t2 = t0 - q * t1;
        seq![seq![dec(i), dec(r2), dec(q), dec(s2), dec(t2)]] + euclid_rows(
            r1,
            r2,
            s1,
            s2,
            t1,
            t2,
            i + 1,
        )
    }
}

/// The whole table for `a` modulo `n`: the start rows `(0, n, -, 1, 0)` and
/// `(1, a mod n, -, 0, 1)`, then the rows of the algorithm.
pub open spec fn inverse_rows(a: int, n: int) -> Seq<Seq<Seq<char>>> {
    seq![
        seq![dec(0), dec(n), "-"@, dec(1), dec(0)],
        seq![dec(1), dec(a % n), "-"@, dec(0), dec(1)],
    ] + euclid_rows(n, a % n, 1, 0, 0, 1, 2)
}

/// One step on a coefficient column: with `q = r0 / r1`, the new coefficient
/// `s0 - q s1` keeps the alternating signs and the weighted sum `c`, and stays
/// within `c` in absolute value.
proof fn lemma_coeff_step(r0: int, r1: int, s0: int, s1: int, c: int)
    requires
        r0 >= 0,
        r1 > 0,
        s0 * s1 <= 0,
        iabs(s0) * r1 + iabs(s1) * r0 == c,
    ensures
        r0 == (r0 / r1) * r1 + r0 % r1,
        0 <= r0 % r1 < r1,
        r0 / r1 >= 0,
        (r0 / r1) * r1 <= r0,
        iabs((r0 / r1) * s1) <= c,
        iabs(s0 - (r0 / r1) * s1) <= c,
        s1 * (s0 - (r0 / r1) * s1) <= 0,
        iabs(s1) * (r0 % r1) + iabs(s0 - (r0 / r1) * s1) * r1 == c,
{
    let q = r0 / r1;
    let r2 = r0 % r1;
    lemma_fundamental_div_mod(r0, r1);
    lemma_mod_bound(r0, r1);
    lemma_div_pos_is_pos(r0, r1);
    assert(r0 == q * r1 + r2) by (nonlinear_arith)
        requires r0 == r1 * q + r2;
    let s2 = s0 - q * s1;
    let a0 = iabs(s0);
    let a1 = iabs(s1);
    assert(q * a1 >= 0) by (nonlinear_arith)
        requires q >= 0, a1 >= 0;
    assert(iabs(s2) == a0 + q * a1 && iabs(q * s1) == q * a1 && s1 * s2 <= 0) by (nonlinear_arith)
        requires
            s2 == s0 - q * s1,
            q >= 0,
            s0 * s1 <= 0,
            a0 == iabs(s0),
            a1 == iabs(s1),
    {
        if s1 >= 0 {
            if s1 > 0 {
                assert(s0 <= 0) by (nonlinear_arith)
                    requires s0 * s1 <= 0, s1 > 0;
            }
            assert(q * s1 >= 0) by (nonlinear_arith)
                requires q >= 0, s1 >= 0;
        } else {
            assert(s0 >= 0) by (nonlinear_arith)
                requires s0 * s1 <= 0, s1 < 0;
            assert(q * s1 <= 0) by (nonlinear_arith)
                requires q >= 0, s1 < 0;
        }
    }
    assert(a1 * r2 + (a0 + q * a1) * r1 == c) by (nonlinear_arith)
        requires r0 == q * r1 + r2, a0 * r1 + a1 * r0 == c;
    assert(a0 + q * a1 <= c) by (nonlinear_arith)
        requires a1 * r2 + (a0 + q * a1) * r1 == c, r1 >= 1, a1 >= 0, r2 >= 0, a0 >= 0, q * a1 >= 0;
    assert(q * r1 <= r0) by (nonlinear_arith)
        requires r0 == q * r1 + r2, r2 >= 0;
}

/// Multiplicative inverse of `a` modulo `n > 0` with the extended Euclidean
/// table; fails when `gcd(a mod n, n) != 1`.
pub fn multiplicative_inverse(a: i128, n: i128) -> (r: CalcResult<Trace>)
    requires
        coprime_mod(a as int, n as int) ==> (a as int) % (n as int) * inv_mod(a as int, n as int)
            <= i128::MAX,
    ensures
        n <= 0 ==> (r matches Err(CalcError::Bereich(s)) && s@ == "n muss > 0 sein"@),
        n > 0 && !coprime_mod(a as int, n as int) ==> (r matches Err(CalcError::KeinInverses(s))
            && s@ == "gcd("@ + dec(a as int) + ", "@ + dec(n as int) + ") = "@ + dec(
            spec_gcd(((a as int) % (n as int)) as nat, n as nat) as int,
        )),
        coprime_mod(a as int, n as int) ==> (r matches Ok(t) && t.algorithm@
            == "Multiplikatives Inverses (erweiterter Euklid)"@ && t.input_list() == seq![
            ("a"@, dec(a as int)),
            ("n"@, dec(n as int)),
        ] && t.results() == seq![
            ("Multiplikatives Inverses"@, dec(inv_mod(a as int, n as int))),
        ] && t.step_lines(0) == seq!["ggT(a, n) = "@ + dec(1)] && t.step_lines(1) == seq![
            "a^(-1) mod n = "@ + dec(inv_mod(a as int, n as int)),
            "Prüfung: a · a^(-1) mod n = "@ + dec(1int % (n as int)),
        ] && t.well_formed() && t.step_titles() == seq!["Erweiterter Euklidischer Algorithmus"@, "Inverses ablesen"@]
            && t.steps@[1].table is None && (t.steps@[0].table matches Some(tb) && tb.header_view()
            == seq!["i"@, "r_i"@, "q_i"@, "s_i"@, "t_i"@] && tb.rows_view() == inverse_rows(
            a as int,
            n as int,
        ))),
{
    if n <= 0 {
        return Err(CalcError::Bereich(String::from_str("n muss > 0 sein")));
    }
    let mut t = Trace::new("Multiplikatives Inverses (erweiterter Euklid)");
    t.input_int("a", a);
    t.input_int("n", n);

    let s1 = t.step("Erweiterter Euklidischer Algorithmus");
    let headers: Vec<String> = vec![
        String::from_str("i"),
        String::from_str("r_i"),
        String::from_str("q_i"),
        String::from_str("s_i"),
        String::from_str("t_i"),
    ];
    let ar = rem_euclid(a, n);
    let ghost a1 = ar as int;
    let mut rows: Vec<Vec<String>> = Vec::new();
    let mut r0 = n;
    let mut r1 = ar;
    let mut s0: i128 = 1;
    let mut s1v: i128 = 0;
    let mut tt0: i128 = 0;
    let mut tt1: i128 = 1;
    let mut i: u128 = 0;
    let row0: Vec<String> = vec![
        int_text(0),
        int_text(r0),
        String::from_str("-"),
        int_text(s0),
        int_text(tt0),
    ];
    let row1: Vec<String> = vec![
        int_text(1),
        int_text(r1),
        String::from_str("-"),
        int_text(s1v),
        int_text(tt1),
    ];
    proof {
        assert(row0@.map_values(|c: String| c@) =~= seq![dec(0), dec(n as int), "-"@, dec(1), dec(0)]);
        assert(row1@.map_values(|c: String| c@) =~= seq![dec(1), dec(a1), "-"@, dec(0), dec(1)]);
    }
    rows.push(row0);
    i += 1;
    rows.push(row1);
    proof {
        assert(rows@.map_values(|r: Vec<String>| r@.map_values(|c: String| c@)) =~= seq![
            row0@.map_values(|c: String| c@),
            row1@.map_values(|c: String| c@),
        ]);
        assert(rows@.map_values(|r: Vec<String>| r@.map_values(|c: String| c@)) + euclid_rows(
            n as int,
            a1,
            1,
            0,
            0,
            1,
            2,
        ) =~= inverse_rows(a as int, n as int));
        assert(spec_gcd(a1 as nat, n as nat) == spec_gcd(n as nat, a1 as nat)) by {
            lemma_small_mod(a1 as nat, n as nat);
        }
    }
    while r1 != 0
        invariant
            n > 0,
            0 <= a1 < n,
            0 <= r1 < r0 <= n,
            s0 * n + tt0 * a1 == r0,
            s1v * n + tt1 * a1 == r1,
            s0 * s1v <= 0,
            tt0 * tt1 <= 0,
            iabs(s0 as int) * r1 + iabs(s1v as int) * r0 == a1,
            iabs(tt0 as int) * r1 + iabs(tt1 as int) * r0 == n,
            spec_gcd(r0 as nat, r1 as nat) == spec_gcd(n as nat, a1 as nat),
            1 <= i,
            i + r1 <= n + 1,
            rows@.len() == i + 1,
            rows@.map_values(|r: Vec<String>| r@.map_values(|c: String| c@)) + euclid_rows(
                r0 as int,
                r1 as int,
                s0 as int,
                s1v as int,
                tt0 as int,
                tt1 as int,
                i + 1,
            ) == inverse_rows(a as int, n as int),
        decreases r1,
    {
        proof {
            lemma_coeff_step(r0 as int, r1 as int, s0 as int, s1v as int, a1);
            lemma_coeff_step(r0 as int, r1 as int, tt0 as int, tt1 as int, n as int);
        }
        let q = r0 / r1;
        let r2 = r0 - q * r1;
        let s2 = s0 - q * s1v;
        let t2 = tt0 - q * tt1;
        proof {
            assert(s1v * n + s2 * n + 0 == s1v * n + s2 * n);
            assert(s2 * n + t2 * a1 == r2) by (nonlinear_arith)
                requires
                    s2 == s0 - q * s1v,
                    t2 == tt0 - q * tt1,
                    r2 == r0 - q * r1,
                    s0 * n + tt0 * a1 == r0,
                    s1v * n + tt1 * a1 == r1,
            ;
        }
        i += 1;
        let row: Vec<String> = vec![
            uint_text(i),
            int_text(r2),
            int_text(q),
            int_text(s2),
            int_text(t2),
        ];
        let ghost before = rows@.map_values(|r: Vec<String>| r@.map_values(|c: String| c@));
        rows.push(row);
        proof {
            let after = rows@.map_values(|r: Vec<String>| r@.map_values(|c: String| c@));
            assert(after =~= before.push(row@.map_values(|c: String| c@)));
            assert(row@.map_values(|c: String| c@) =~= seq![
                dec(i as int),
                dec(r2 as int),
                dec(q as int),
                dec(s2 as int),
                dec(t2 as int),
            ]);
            assert(after + euclid_rows(r1 as int, r2 as int, s1v as int, s2 as int, tt1 as int, t2 as int, i + 1) =~= before + euclid_rows(
                r0 as int,
                r1 as int,
                s0 as int,
                s1v as int,
                tt0 as int,
                tt1 as int,
                i as int,
            ));
        }
        r0 = r1;
        r1 = r2;
        s0 = s1v;
        s1v = s2;
        tt0 = tt1;
        tt1 = t2;
    }
    proof {
        assert(rows@.map_values(|r: Vec<String>| r@.map_values(|c: String| c@)) =~= inverse_rows(
            a as int,
            n as int,
        ));
        assert(spec_gcd(r0 as nat, 0) == r0);
        assert(spec_gcd(a1 as nat, n as nat) == r0);
    }
    let tb = Table { headers, rows };
    proof {
        assert(tb.header_view() =~= seq!["i"@, "r_i"@, "q_i"@, "s_i"@, "t_i"@]);
    }
    t.table(s1, tb);
    let l1 = text_int("ggT(a, n) = ", r0);
    t.line(s1, l1.as_str());

    if r0 != 1 {
        t.line(s1, "Da gcd(a, n) ≠ 1, existiert kein multiplikatives Inverses.");
        let mut m = text_int("gcd(", a);
        push_str(&mut m, ", ");
        push_int(&mut m, n);
        push_str(&mut m, ") = ");
        push_int(&mut m, r0);
        return Err(CalcError::KeinInverses(m));
    }
    let inv = rem_euclid(tt0, n);
    proof {
        // tt0 * a1 = 1 - s0 * n, so a * inv = 1 (mod n)
        assert(tt0 * a1 == 1 + n * (-s0)) by (nonlinear_arith)
            requires s0 * n + tt0 * a1 == 1;
        lemma_mod_multiples_vanish(-s0 as int, 1, n as int);
        lemma_mul_is_commutative(n as int, -s0 as int);
        lemma_mul_mod_noop_right(a1, tt0 as int, n as int);
        lemma_mul_mod_noop_left(a as int, inv as int, n as int);
        lemma_mul_is_commutative(a1, tt0 as int);
        lemma_inv_unique(a as int, n as int, inv as int);
        lemma_mul_mod_noop_left(a as int, inv as int, n as int);
    }
    let s2 = t.step("Inverses ablesen");
    let l2 = text_int("a^(-1) mod n = ", inv);
    t.line(s2, l2.as_str());
    assert(0 <= ar * inv) by (nonlinear_arith)
        requires 0 <= ar, 0 <= inv;
    let probe = rem_euclid(ar * inv, n);
    let l3 = text_int("Prüfung: a · a^(-1) mod n = ", probe);
    t.line(s2, l3.as_str());
    t.result_int("Multiplikatives Inverses", inv);
    assert(t.step_lines(0) =~= seq![l1@]);
    assert(t.step_lines(1) =~= seq![l2@, l3@]);
    assert(t.step_titles() =~= seq!["Erweiterter Euklidischer Algorithmus"@, "Inverses ablesen"@]);
    Ok(t)
}

} // verus!
