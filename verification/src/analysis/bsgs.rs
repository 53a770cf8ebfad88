//! Baby-step giant-step for the discrete logarithm `g^x = h (mod p)`.
use std::collections::HashMap;
use vstd::prelude::*;
use vstd::arithmetic::div_mod::*;
use vstd::arithmetic::power::*;
use crate::error::{CalcError, CalcResult};
use crate::fermat::{lemma_fermat_exponent, lemma_fermat_power_of_order};
use crate::math::{
    MOD_LIMIT, TRIAL_LIMIT, abs, coprime_mod, is_isqrt, is_prime, isqrt, mod_pow, rem_euclid, spec_is_prime,
};
use crate::text::{dec, int_text, push_int, push_str, text_int};
use crate::trace::{Table, Trace};

verus! {

broadcast use vstd::std_specs::hash::group_hash_axioms;

/// `m` is `ceil(sqrt(v))` for `v >= 1`.
pub open spec fn is_ceil_sqrt(v: int, m: int) -> bool {
    0 <= m && (m - 1) * (m - 1) < v <= m * m
}

/// The baby step `g^j mod p`.
pub open spec fn baby_val(g: int, p: int, j: int) -> int {
    pow(g, j as nat) % p
}

/// `j` is the first exponent with `g^j = v (mod p)`.
pub open spec fn first_index(g: int, p: int, v: int, j: int) -> bool {
    &&& 0 <= j
    &&& baby_val(g, p, j) == v
    &&& forall|k: int| 0 <= k < j ==> #[trigger] baby_val(g, p, k) != v
}

/// Some exponent below `m` gives `v`.
pub open spec fn in_baby(g: int, p: int, m: int, v: int) -> bool {
    exists|k: int| 0 <= k < m && #[trigger] baby_val(g, p, k) == v
}

/// The giant-step factor `g^(m(p-2)) mod p`, which is `g^-m` for `g` coprime to `p`.
pub open spec fn giant_factor(g: int, p: int, m: int) -> int {
    pow(g, (m * (p - 2)) as nat) % p
}

/// The giant step `h · factor^i mod p`.
pub open spec fn giant_val(g: int, h: int, p: int, m: int, i: int) -> int {
    (h * pow(giant_factor(g, p, m), i as nat)) % p
}

/// The search finds every power of `g`: for a prime `p`, `g` not divisible by
/// `p`, `h = g^x (mod p)` and `m = ceil(sqrt(p - 1))`, some giant step `i < m`
/// meets a baby step.
pub proof fn lemma_bsgs_finds_powers(g: int, h: int, p: int, x: nat, m: int)
    requires
        spec_is_prime(p),
        g % p != 0,
        h % p == pow(g, x) % p,
        is_ceil_sqrt(p - 1, m),
    ensures
        exists|i: int| 0 <= i < m && in_baby(g, p, m, #[trigger] giant_val(g, h, p, m, i)),
{
    let q = p - 1;
    if m == 0 {
        assert(m * m == 0);
    }
    let xr = (x as int % q) as nat;
    lemma_mod_bound(x as int, q);
    lemma_mod_twice(x as int, q);
    crate::math::lemma_coprime_prime(g, p);
    lemma_fermat_exponent(g, p, x, xr);
    let i = xr as int / m;
    let j = xr as int % m;
    lemma_fundamental_div_mod(xr as int, m);
    lemma_mod_bound(xr as int, m);
    assert(0 <= i < m) by (nonlinear_arith)
        requires xr == m * i + j, 0 <= j < m, 0 <= xr < q, q <= m * m, m >= 1;
    let gm = pow(g, m as nat);
    let e2 = pow(g, (m * (p - 2)) as nat);
    let f = e2 % p;
    assert(f == giant_factor(g, p, m));
    // g^m · g^(m(p-2)) = g^(m(p-1)) = 1 (mod p)
    assert((m * (p - 2)) >= 0) by (nonlinear_arith) requires m >= 1, p >= 2;
    lemma_pow_adds(g, m as nat, (m * (p - 2)) as nat);
    assert((m as nat) + ((m * (p - 2)) as nat) == (m as nat) * ((p - 1) as nat)) by (nonlinear_arith)
        requires m >= 1, p >= 2;
    lemma_fermat_power_of_order(g, p, m as nat);
    lemma_mul_mod_noop_right(gm, e2, p);
    assert((gm * f) % p == 1);
    lemma_small_mod(1, p as nat);
    // g^x' = g^j · (g^m)^i
    lemma_pow_adds(g, (m * i) as nat, j as nat);
    assert(xr == (m * i) as nat + j as nat);
    lemma_pow_multiplies(g, m as nat, i as nat);
    assert(((m * i) as nat) == (m as nat) * (i as nat));
    // (g^m)^i · f^i = (g^m · f)^i = 1 (mod p)
    lemma_pow_distributes(gm, f, i as nat);
    lemma_pow_mod_noop(gm * f, i as nat, p);
    lemma1_pow(i as nat);
    let u = pow(gm, i as nat) * pow(f, i as nat);
    assert(u % p == 1);
    // h · f^i = g^j · u (mod p)
    let fi = pow(f, i as nat);
    let gx = pow(g, xr);
    lemma_mul_mod_noop_left(h, fi, p);
    lemma_mul_mod_noop_left(gx, fi, p);
    assert(gx * fi == pow(g, j as nat) * u) by (nonlinear_arith)
        requires gx == pow(g, (m * i) as nat) * pow(g, j as nat), pow(g, (m * i) as nat) == pow(gm, i as nat), u == pow(gm, i as nat) * fi;
    lemma_mul_mod_noop_right(pow(g, j as nat), u, p);
    assert(pow(g, j as nat) * 1 == pow(g, j as nat));
    assert(giant_val(g, h, p, m, i) == baby_val(g, p, j));
    assert(in_baby(g, p, m, giant_val(g, h, p, m, i)));
}

/// Giant step `i < m` is the first one that meets a baby step.
pub open spec fn first_giant(g: int, h: int, p: int, m: int, i: int) -> bool {
    &&& 0 <= i < m
    &&& in_baby(g, p, m, giant_val(g, h, p, m, i))
    &&& forall|k: int| 0 <= k < i ==> !in_baby(g, p, m, #[trigger] giant_val(g, h, p, m, k))
}

/// The baby-step table: `(j, g^j mod p)` for `j < m`.
pub open spec fn baby_rows(g: int, p: int, m: int) -> Seq<Seq<Seq<char>>> {
    Seq::new(m as nat, |j: int| seq![dec(j), dec(baby_val(g, p, j))])
}

/// Row `i` of the giant-step table: the step value and its baby match or "-".
pub open spec fn giant_row(g: int, h: int, p: int, m: int, i: int) -> Seq<Seq<char>> {
    let v = giant_val(g, h, p, m, i);
    seq![
        dec(i),
        dec(v),
        if in_baby(g, p, m, v) {
            dec(choose|j: int| first_index(g, p, v, j))
        } else {
            "-"@
        },
    ]
}

proof fn lemma_first_index_unique(g: int, p: int, v: int, j1: int, j2: int)
    requires
        first_index(g, p, v, j1),
        first_index(g, p, v, j2),
    ensures
        j1 == j2,
{
    if j1 < j2 {
        assert(baby_val(g, p, j1) != v);
    } else if j2 < j1 {
        assert(baby_val(g, p, j2) != v);
    }
}

proof fn lemma_power_step(b: int, e: nat, p: int, c: int)
    requires
        p > 0,
    ensures
        ((pow(b, e) % p) * c) % p == (pow(b, e) * c) % p,
        ((c * pow(b, e)) % p * b) % p == (c * pow(b, e + 1)) % p,
        (pow(b, e) * b) == pow(b, e + 1),
{
    lemma_mul_mod_noop_left(pow(b, e), c, p);
    lemma_pow_adds(b, e, 1);
    lemma_pow1(b);
    lemma_mul_mod_noop_left(c * pow(b, e), b, p);
    assert(c * pow(b, e) * b == c * pow(b, e + 1)) by (nonlinear_arith)
        requires pow(b, e + 1) == pow(b, e) * b;
}

/// The logarithm that a meeting of the two tables gives is correct: for a prime
/// `p` and a base `g` that `p` does not divide, when baby step `j` equals giant
/// step `i` (`i, j, m >= 0`), `x = (i·m + j) mod (p - 1)` satisfies `g^x = h (mod p)`.
pub proof fn lemma_bsgs_solution(g: int, h: int, p: int, m: int, i: int, j: int)
    requires
        spec_is_prime(p),
        coprime_mod(g, p),
        m >= 0,
        i >= 0,
        j >= 0,
        baby_val(g, p, j) == giant_val(g, h, p, m, i),
    ensures
        pow(g, ((i * m + j) % (p - 1)) as nat) % p == h % p,
{
    let q = p - 1;
    let e1 = (m * (p - 2)) as nat;
    assert(m * (p - 2) >= 0 && m * i >= 0) by (nonlinear_arith) requires m >= 0, p >= 2, i >= 0;
    let ein = e1 * (i as nat);
    let mi = (m * i) as nat;
    let f = giant_factor(g, p, m);
    // the giant step is h · g^(m(p-2)i) modulo p
    lemma_pow_mod_noop(pow(g, e1), i as nat, p);
    lemma_pow_multiplies(g, e1, i as nat);
    lemma_mul_mod_noop_right(h, pow(f, i as nat), p);
    lemma_mul_mod_noop_right(h, pow(g, ein), p);
    // multiply both sides by g^(m i)
    let a = pow(g, mi);
    lemma_mul_mod_noop_left(pow(g, j as nat), a, p);
    lemma_mul_mod_noop_left(h * pow(g, ein), a, p);
    lemma_pow_adds(g, j as nat, mi);
    lemma_pow_adds(g, ein, mi);
    assert((h * pow(g, ein)) * a == h * (pow(g, ein) * a)) by (nonlinear_arith);
    assert(ein + mi == mi * (q as nat)) by (nonlinear_arith)
        requires ein == e1 * i, e1 == m * (p - 2), mi == m * i, q == p - 1, i >= 0;
    lemma_fermat_power_of_order(g, p, mi);
    lemma_mul_mod_noop_right(h, pow(g, mi * (q as nat)), p);
    assert(pow(g, (j as nat) + mi) % p == h % p);
    // reduce the exponent modulo p - 1
    let x = i * m + j;
    assert(x == (j as nat) + mi) by (nonlinear_arith) requires x == i * m + j, mi == m * i, j >= 0;
    lemma_mod_bound(x, q);
    lemma_mod_twice(x, q);
    lemma_fermat_exponent(g, p, (j as nat) + mi, (x % q) as nat);
}

/// Baby-step giant-step: baby steps `g^j` for `j < m = ceil(sqrt(p - 1))`
/// (first `j` kept per value), then giant steps `h · g^(-m i)` until one
/// meets a baby step; `x = (i m + j) mod (p - 1)`.
pub fn solve(g: i128, h: i128, p: i128) -> (r: CalcResult<Trace>)
    requires
        p <= TRIAL_LIMIT,
        spec_is_prime(p as int) ==> p <= MOD_LIMIT,
        spec_is_prime(p as int) ==> (p - 1) * abs(g as int) <= i128::MAX,
    ensures
        !spec_is_prime(p as int) ==> (r matches Err(CalcError::NichtPrim(s)) && s@ == dec(
            p as int,
        )),
        spec_is_prime(p as int) ==> forall|m: int|
            #![trigger is_ceil_sqrt(p - 1, m)]
            is_ceil_sqrt(p - 1, m) ==> ((forall|i: int|
                0 <= i < m ==> !in_baby(g as int, p as int, m, #[trigger] giant_val(
                    g as int,
                    h as int,
                    p as int,
                    m,
                    i,
                ))) ==> (r matches Err(CalcError::KeineLoesung(s)) && s@ == "Kein x gefunden"@))
                && (forall|i: int, j: int|
                #![trigger first_giant(g as int, h as int, p as int, m, i), first_index(g as int, p as int, giant_val(g as int, h as int, p as int, m, i), j)]
                first_giant(g as int, h as int, p as int, m, i) && first_index(
                    g as int,
                    p as int,
                    giant_val(g as int, h as int, p as int, m, i),
                    j,
                ) ==> (r matches Ok(t) && t.algorithm@ == "Baby-Step-Giant-Step"@
                    && t.input_list() == seq![
                    ("g"@, dec(g as int)),
                    ("h"@, dec(h as int)),
                    ("p"@, dec(p as int)),
                ] && t.results() == seq![("x"@, dec((i * m + j) % (p - 1)))] && t.step_lines(0)
                    == seq!["m = ceil(sqrt(p - 1)) = "@ + dec(m)] && t.step_lines(2) == seq![
                    "g^(-m) ≡ g^(m·(p-2)) mod p = "@ + dec(g as int) + "^("@ + dec(m) + "·"@ + dec(
                        p - 2,
                    ) + ") mod "@ + dec(p as int) + " = "@ + dec(giant_factor(g as int, p as int, m)),
                    "x = i·m + j = "@ + dec(i) + "·"@ + dec(m) + " + "@ + dec(j) + " = "@ + dec(
                        (i * m + j) % (p - 1),
                    ),
                ] && t.well_formed() && t.step_titles() == seq![
                    "Suchgrenze berechnen"@,
                    "Baby-Steps berechnen"@,
                    "Giant-Steps und Suche"@,
                ] && t.step_lines(1).len() == 0 && t.steps@[0].table is None && (
                t.steps@[1].table matches Some(tb) && tb.header_view() == seq!["j"@, "g^j mod p"@]
                    && tb.rows_view() == baby_rows(g as int, p as int, m)) && (
                t.steps@[2].table matches Some(tb) && tb.header_view() == seq![
                    "i"@,
                    "h · (g^-m)^i mod p"@,
                    "Match j"@,
                ] && tb.rows_view() == Seq::new(
                    (i + 1) as nat,
                    |k: int| giant_row(g as int, h as int, p as int, m, k),
                )))),
{
    if !is_prime(p) {
        return Err(CalcError::NichtPrim(int_text(p)));
    }
    let mut t = Trace::new("Baby-Step-Giant-Step");
    t.input_int("g", g);
    t.input_int("h", h);
    t.input_int("p", p);

    let s1 = t.step("Suchgrenze berechnen");
    let r0 = isqrt(p - 1);
    proof {
        assert(r0 <= 0x1_0000_0000) by (nonlinear_arith)
            requires 0 <= r0, r0 * r0 <= p - 1, p <= MOD_LIMIT;
    }
    let m = if r0 * r0 == p - 1 {
        r0
    } else {
        r0 + 1
    };
    proof {
        assert(is_ceil_sqrt(p - 1, m as int)) by (nonlinear_arith)
            requires
                is_isqrt(p - 1, r0 as int),
                p >= 2,
                m == (if r0 * r0 == p - 1 { r0 as int } else { r0 + 1 }),
        ;
        assert forall|m2: int| #[trigger] is_ceil_sqrt(p - 1, m2) implies m2 == m by {
            assert(m2 == m) by (nonlinear_arith)
                requires is_ceil_sqrt(p - 1, m2), is_ceil_sqrt(p - 1, m as int);
        }
        assert(1 <= m <= 0x1_0000_0001) by (nonlinear_arith)
            requires is_ceil_sqrt(p - 1, m as int), p >= 2, r0 <= 0x1_0000_0000, m <= r0 + 1;
    }
    let l1 = text_int("m = ceil(sqrt(p - 1)) = ", m);
    t.line(s1, l1.as_str());
    assert(t.step_lines(0) =~= seq![l1@]);

    let s2 = t.step("Baby-Steps berechnen");
    assert(t.step_titles() =~= seq!["Suchgrenze berechnen"@, "Baby-Steps berechnen"@]);
    let mut baby: HashMap<i128, i128> = HashMap::new();
    let headers: Vec<String> = vec![String::from_str("j"), String::from_str("g^j mod p")];
    let mut rows: Vec<Vec<String>> = Vec::new();
    let mut acc: i128 = 1;
    let mut j: i128 = 0;
    proof {
        lemma_pow0(g as int);
        lemma_small_mod(1, p as nat);
    }
    while j < m
        invariant
            t.step_lines(0) == seq![l1@],
            t.steps@.len() == 2,
            t.step_titles() == seq!["Suchgrenze berechnen"@, "Baby-Steps berechnen"@],
            s2 == 1,
            t.input_list() == seq![("g"@, dec(g as int)), ("h"@, dec(h as int)), ("p"@, dec(p as int))],
            t.algorithm@ == "Baby-Step-Giant-Step"@,
            t.results().len() == 0,
            t.well_formed(),
            spec_is_prime(p as int),
            is_ceil_sqrt(p - 1, m as int),
            forall|m2: int| #[trigger] is_ceil_sqrt(p - 1, m2) ==> m2 == m,
            2 <= p <= MOD_LIMIT,
            (p - 1) * abs(g as int) <= i128::MAX,
            1 <= m <= 0x1_0000_0001,
            0 <= j <= m,
            acc == baby_val(g as int, p as int, j as int),
            0 <= acc < p,
            forall|v: i128| #[trigger]
                baby@.contains_key(v) ==> 0 <= baby@[v] < j && first_index(
                    g as int,
                    p as int,
                    v as int,
                    baby@[v] as int,
                ),
            forall|k: int| 0 <= k < j ==> #[trigger] baby@.contains_key(baby_val(g as int, p as int, k) as i128),
            forall|k: int| 0 <= k < j ==> 0 <= #[trigger] baby_val(g as int, p as int, k) < p,
            rows@.len() == j,
            forall|k: int|
                0 <= k < j ==> (#[trigger] rows@[k])@.map_values(|c: String| c@) == seq![
                    dec(k),
                    dec(baby_val(g as int, p as int, k)),
                ],
        decreases m - j,
    {
        if !baby.contains_key(&acc) {
            proof {
                assert forall|k: int| 0 <= k < j implies #[trigger] baby_val(g as int, p as int, k)
                    != acc by {
                    assert(baby@.contains_key(baby_val(g as int, p as int, k) as i128));
                }
            }
            baby.insert(acc, j);
        }
        let row: Vec<String> = vec![int_text(j), int_text(acc)];
        proof {
            assert(row@.map_values(|c: String| c@) =~= seq![
                dec(j as int),
                dec(baby_val(g as int, p as int, j as int)),
            ]);
        }
        rows.push(row);
        proof {
            let ag = abs(g as int) as int;
            assert(-((p - 1) * ag) <= acc * g <= (p - 1) * ag) by (nonlinear_arith)
                requires 0 <= acc <= p - 1, ag >= 0, g == ag || g == -ag;
        }
        let next = rem_euclid(acc * g, p);
        proof {
            lemma_power_step(g as int, j as nat, p as int, g as int);
        }
        acc = next;
        j += 1;
    }
    let tb1 = Table { headers, rows };
    proof {
        assert(tb1.rows_view() =~= baby_rows(g as int, p as int, m as int));
        assert(tb1.header_view() =~= seq!["j"@, "g^j mod p"@]);
    }
    t.table(s2, tb1);

    let s3 = t.step("Giant-Steps und Suche");
    assert(t.step_titles() =~= seq![
        "Suchgrenze berechnen"@,
        "Baby-Steps berechnen"@,
        "Giant-Steps und Suche"@,
    ]);
    proof {
        assert(m * (p - 2) <= 0x1_0000_0001 * MOD_LIMIT) by (nonlinear_arith)
            requires 1 <= m <= 0x1_0000_0001, 2 <= p <= MOD_LIMIT;
        assert(m * (p - 2) >= 0) by (nonlinear_arith)
            requires 1 <= m, 2 <= p;
    }
    let factor = match mod_pow(g, m * (p - 2), p) {
        Ok(v) => v,
        Err(e) => return Err(e),
    };
    let mut l2 = text_int("g^(-m) ≡ g^(m·(p-2)) mod p = ", g);
    push_str(&mut l2, "^(");
    push_int(&mut l2, m);
    push_str(&mut l2, "·");
    push_int(&mut l2, p - 2);
    push_str(&mut l2, ") mod ");
    push_int(&mut l2, p);
    push_str(&mut l2, " = ");
    push_int(&mut l2, factor);
    t.line(s3, l2.as_str());
    let headers2: Vec<String> = vec![
        String::from_str("i"),
        String::from_str("h · (g^-m)^i mod p"),
        String::from_str("Match j"),
    ];
    let mut rows2: Vec<Vec<String>> = Vec::new();
    let mut gamma = rem_euclid(h, p);
    let mut i: i128 = 0;
    proof {
        lemma_pow0(factor as int);
        assert(t.step_lines(0) =~= seq![l1@]);
        assert(t.step_lines(2) =~= seq![l2@]);
        assert(headers2@.map_values(|h: String| h@) =~= seq!["i"@, "h · (g^-m)^i mod p"@, "Match j"@]);
    }
    while i < m
        invariant
            spec_is_prime(p as int),
            is_ceil_sqrt(p - 1, m as int),
            forall|m2: int| #[trigger] is_ceil_sqrt(p - 1, m2) ==> m2 == m,
            2 <= p <= MOD_LIMIT,
            1 <= m <= 0x1_0000_0001,
            0 <= i <= m,
            factor == giant_factor(g as int, p as int, m as int),
            0 <= factor < p,
            gamma == giant_val(g as int, h as int, p as int, m as int, i as int),
            0 <= gamma < p,
            forall|v: i128| #[trigger]
                baby@.contains_key(v) ==> 0 <= baby@[v] < m && first_index(
                    g as int,
                    p as int,
                    v as int,
                    baby@[v] as int,
                ),
            forall|k: int| 0 <= k < m ==> #[trigger] baby@.contains_key(baby_val(g as int, p as int, k) as i128),
            forall|k: int| 0 <= k < m ==> 0 <= #[trigger] baby_val(g as int, p as int, k) < p,
            forall|k: int|
                0 <= k < i ==> !in_baby(g as int, p as int, m as int, #[trigger] giant_val(
                    g as int,
                    h as int,
                    p as int,
                    m as int,
                    k,
                )),
            rows2@.len() == i,
            forall|k: int|
                0 <= k < i ==> (#[trigger] rows2@[k])@.map_values(|c: String| c@) == giant_row(
                    g as int,
                    h as int,
                    p as int,
                    m as int,
                    k,
                ),
            s1 == 0,
            s2 == 1,
            s3 == 2,
            t.steps@.len() == 3,
            t.step_titles() == seq![
                "Suchgrenze berechnen"@,
                "Baby-Steps berechnen"@,
                "Giant-Steps und Suche"@,
            ],
            t.steps@[1].table matches Some(tb) && tb.rows_view() == baby_rows(g as int, p as int, m as int)
                && tb.header_view() == seq!["j"@, "g^j mod p"@],
            t.step_lines(1).len() == 0,
            t.steps@[0].table is None,
            headers2@.map_values(|h: String| h@) == seq!["i"@, "h · (g^-m)^i mod p"@, "Match j"@],
            t.step_lines(0) == seq![l1@],
            t.step_lines(2) == seq![l2@],
            l1@ == "m = ceil(sqrt(p - 1)) = "@ + dec(m as int),
            l2@ == "g^(-m) ≡ g^(m·(p-2)) mod p = "@ + dec(g as int) + "^("@ + dec(m as int) + "·"@
                + dec(p - 2) + ") mod "@ + dec(p as int) + " = "@ + dec(factor as int),
            t.input_list() == seq![("g"@, dec(g as int)), ("h"@, dec(h as int)), ("p"@, dec(p as int))],
            t.algorithm@ == "Baby-Step-Giant-Step"@,
            t.results().len() == 0,
            t.well_formed(),
        decreases m - i,
    {
        let found = baby.get(&gamma);
        let ghost v = gamma as int;
        proof {
            if in_baby(g as int, p as int, m as int, v) {
                let k = choose|k: int| 0 <= k < m && #[trigger] baby_val(g as int, p as int, k) == v;
                assert(baby@.contains_key(baby_val(g as int, p as int, k) as i128));
            }
            if baby@.contains_key(gamma) {
                assert(in_baby(g as int, p as int, m as int, v)) by {
                    assert(baby_val(g as int, p as int, baby@[gamma] as int) == v);
                }
                assert forall|j2: int| #[trigger] first_index(g as int, p as int, v, j2) implies j2
                    == baby@[gamma] by {
                    lemma_first_index_unique(g as int, p as int, v, j2, baby@[gamma] as int);
                }
            }
        }
        let m_str = match found {
            Some(jv) => int_text(*jv),
            None => String::from_str("-"),
        };
        let row: Vec<String> = vec![int_text(i), int_text(gamma), m_str];
        proof {
            assert(row@.map_values(|c: String| c@) =~= giant_row(
                g as int,
                h as int,
                p as int,
                m as int,
                i as int,
            ));
        }
        rows2.push(row);
        if let Some(jr) = found {
            let jv = *jr;
            assert(0 <= jv < m);
            assert(i * m <= 0x1_0000_0001 * 0x1_0000_0001) by (nonlinear_arith)
                requires 0 <= i <= 0x1_0000_0001, 0 <= m <= 0x1_0000_0001;
            assert(i * m >= 0) by (nonlinear_arith)
                requires 0 <= i, 0 <= m;
            let x = rem_euclid(i * m + jv, p - 1);
            let tb2 = Table { headers: headers2, rows: rows2 };
            proof {
                assert(tb2.header_view() == seq!["i"@, "h · (g^-m)^i mod p"@, "Match j"@]);
                assert(t.step_lines(2)[0] == l2@);
                assert(t.step_lines(2).len() == 1);
                assert(tb2.rows_view() =~= Seq::new(
                    (i + 1) as nat,
                    |k: int| giant_row(g as int, h as int, p as int, m as int, k),
                ));
                assert(first_giant(g as int, h as int, p as int, m as int, i as int));
                assert forall|i2: int| #[trigger] first_giant(g as int, h as int, p as int, m as int, i2) implies i2 == i by {
                    if i2 < i {
                        assert(!in_baby(g as int, p as int, m as int, giant_val(g as int, h as int, p as int, m as int, i2)));
                    } else if i2 > i {
                        assert(!in_baby(g as int, p as int, m as int, giant_val(g as int, h as int, p as int, m as int, i as int)));
                    }
                }
            }
            t.table(s3, tb2);
            let mut l3 = text_int("x = i·m + j = ", i);
            push_str(&mut l3, "·");
            push_int(&mut l3, m);
            push_str(&mut l3, " + ");
            push_int(&mut l3, jv);
            push_str(&mut l3, " = ");
            push_int(&mut l3, x);
            t.line(s3, l3.as_str());
            t.result_int("x", x);
            assert(t.step_lines(0) =~= seq![l1@]);
            assert(t.step_lines(2) =~= seq![l2@, l3@]);
            assert(t.step_titles() =~= seq!["Suchgrenze berechnen"@, "Baby-Steps berechnen"@, "Giant-Steps und Suche"@]);
            return Ok(t);
        }
        proof {
            lemma_power_step(factor as int, i as nat, p as int, h as int);
            lemma_mul_mod_noop_left(h as int * pow(factor as int, i as nat), factor as int, p as int);
            crate::math::lemma_product_fits(gamma as int, factor as int);
            assert(gamma * factor >= 0) by (nonlinear_arith)
                requires 0 <= gamma, 0 <= factor;
        }
        gamma = rem_euclid(gamma * factor, p);
        i += 1;
    }
    t.table(s3, Table { headers: headers2, rows: rows2 });
    Err(CalcError::KeineLoesung(String::from_str("Kein x gefunden")))
}

} // verus!
