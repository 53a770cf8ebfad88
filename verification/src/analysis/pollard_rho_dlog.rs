//! Pollard's rho method for the discrete logarithm `g^x = h (mod p)`, with the
//! partition of the residues into three classes by `x mod 3`.
use vstd::prelude::*;
use vstd::arithmetic::power::*;
use crate::error::{CalcError, CalcResult};
use crate::math::{
    MOD_LIMIT, TRIAL_LIMIT, abs, coprime_mod, gcd, inv_error, inv_mod, is_prime, lemma_gcd_divides, mod_inv, mod_pow,
    rem_euclid, spec_gcd, spec_is_prime,
};
use crate::text::{dec, int_text, text_int};
use crate::trace::{Table, Trace};

verus! {

/// Largest number of iterations.
pub const DLOG_STEPS: i128 = 100_000;

/// Rows of the iteration table that are shown.
pub const DLOG_ROWS: usize = 50;

/// One step of the walk on `(x, a, b)` with `x = g^a h^b`: square for class 0,
/// multiply by `g` for class 1, by `h` for class 2 (exponents modulo `p - 1`).
pub open spec fn rho_step(g: int, h: int, p: int, s: (int, int, int)) -> (int, int, int) {
    let n = p - 1;
    if s.0 % 3 == 0 {
        ((s.0 * s.0) % p, (2 * s.1) % n, (2 * s.2) % n)
    } else if s.0 % 3 == 1 {
        ((s.0 * g) % p, (s.1 + 1) % n, s.2)
    } else {
        ((s.0 * h) % p, s.1, (s.2 + 1) % n)
    }
}

/// The walk after `k` steps from `(1, 0, 0)`.
pub open spec fn rho_walk(g: int, h: int, p: int, k: nat) -> (int, int, int)
    decreases k,
{
    if k == 0 {
        (1, 0, 0)
    } else {
        rho_step(g, h, p, rho_walk(g, h, p, (k - 1) as nat))
    }
}

/// Congruent factors give congruent products modulo `p`.
proof fn lemma_mul_cong(x1: int, y1: int, x2: int, y2: int, p: int)
    requires
        p > 0,
        x1 % p == x2 % p,
        y1 % p == y2 % p,
    ensures
        (x1 * y1) % p == (x2 * y2) % p,
{
    vstd::arithmetic::div_mod::lemma_mul_mod_noop(x1, y1, p);
    vstd::arithmetic::div_mod::lemma_mul_mod_noop(x2, y2, p);
}

/// Exponents of a value that the prime `p` does not divide count modulo `p - 1`.
proof fn lemma_exp_cong(g: int, p: int, x: nat, y: nat)
    requires
        spec_is_prime(p),
        g % p != 0,
        x % ((p - 1) as nat) == y % ((p - 1) as nat),
    ensures
        pow(g, x) % p == pow(g, y) % p,
{
    crate::math::lemma_coprime_prime(g, p);
    crate::fermat::lemma_fermat_exponent(g, p, x, y);
}

/// Along the walk, `x = g^a · h^b (mod p)` with `x` in `[0, p)` and the
/// exponents in `[0, p - 1)`.
proof fn lemma_walk_form(g: int, h: int, p: int, k: nat)
    requires
        spec_is_prime(p),
        g % p != 0,
        h % p != 0,
    ensures
        ({
            let s = rho_walk(g, h, p, k);
            &&& 0 <= s.0 < p
            &&& 0 <= s.1 < p - 1
            &&& 0 <= s.2 < p - 1
            &&& s.0 == (pow(g, s.1 as nat) * pow(h, s.2 as nat)) % p
        }),
    decreases k,
{
    let n = p - 1;
    if k == 0 {
        lemma_pow0(g);
        lemma_pow0(h);
        vstd::arithmetic::div_mod::lemma_small_mod(1, p as nat);
    } else {
        lemma_walk_form(g, h, p, (k - 1) as nat);
        let s = rho_walk(g, h, p, (k - 1) as nat);
        let x = s.0;
        let a = s.1;
        let b = s.2;
        let ga = pow(g, a as nat);
        let hb = pow(h, b as nat);
        let t = rho_step(g, h, p, s);
        assert(t == rho_walk(g, h, p, k));
        vstd::arithmetic::div_mod::lemma_mod_bound(2 * a, n);
        vstd::arithmetic::div_mod::lemma_mod_bound(2 * b, n);
        vstd::arithmetic::div_mod::lemma_mod_bound(a + 1, n);
        vstd::arithmetic::div_mod::lemma_mod_bound(b + 1, n);
        vstd::arithmetic::div_mod::lemma_mod_twice(2 * a, n);
        vstd::arithmetic::div_mod::lemma_mod_twice(2 * b, n);
        vstd::arithmetic::div_mod::lemma_mod_twice(a + 1, n);
        vstd::arithmetic::div_mod::lemma_mod_twice(b + 1, n);
        vstd::arithmetic::div_mod::lemma_mod_twice(ga * hb, p);
        if x % 3 == 0 {
            vstd::arithmetic::div_mod::lemma_mod_bound(x * x, p);
            // x² = g^(2a) h^(2b)
            lemma_mul_cong(x, x, ga * hb, ga * hb, p);
            lemma_pow_adds(g, a as nat, a as nat);
            lemma_pow_adds(h, b as nat, b as nat);
            assert((ga * hb) * (ga * hb) == (ga * ga) * (hb * hb)) by (nonlinear_arith);
            lemma_exp_cong(g, p, (2 * a) as nat, ((2 * a) % n) as nat);
            lemma_exp_cong(h, p, (2 * b) as nat, ((2 * b) % n) as nat);
            lemma_mul_cong(
                pow(g, (2 * a) as nat),
                pow(h, (2 * b) as nat),
                pow(g, ((2 * a) % n) as nat),
                pow(h, ((2 * b) % n) as nat),
                p,
            );
        } else if x % 3 == 1 {
            vstd::arithmetic::div_mod::lemma_mod_bound(x * g, p);
            // x g = g^(a+1) h^b
            lemma_mul_cong(x, g, ga * hb, g, p);
            lemma_pow_adds(g, a as nat, 1);
            lemma_pow1(g);
            assert((ga * hb) * g == (ga * g) * hb) by (nonlinear_arith);
            lemma_exp_cong(g, p, (a + 1) as nat, ((a + 1) % n) as nat);
            lemma_mul_cong(pow(g, (a + 1) as nat), hb, pow(g, ((a + 1) % n) as nat), hb, p);
        } else {
            vstd::arithmetic::div_mod::lemma_mod_bound(x * h, p);
            // x h = g^a h^(b+1)
            lemma_mul_cong(x, h, ga * hb, h, p);
            lemma_pow_adds(h, b as nat, 1);
            lemma_pow1(h);
            assert((ga * hb) * h == ga * (hb * h)) by (nonlinear_arith);
            lemma_exp_cong(h, p, (b + 1) as nat, ((b + 1) % n) as nat);
            lemma_mul_cong(ga, pow(h, (b + 1) as nat), ga, pow(h, ((b + 1) % n) as nat), p);
        }
    }
}

/// `(x · r) · s = x (mod n)` when `r · s = 1 (mod n)`.
proof fn lemma_cancel_exponent(x: int, r: int, s: int, n: int)
    requires
        n > 0,
        (r * s) % n == 1int % n,
    ensures
        ((x * r) * s) % n == x % n,
        (x * (r * s)) % n == x % n,
{
    assert((x * r) * s == x * (r * s)) by (nonlinear_arith);
    vstd::arithmetic::div_mod::lemma_mul_mod_noop_right(x, r * s, n);
    vstd::arithmetic::div_mod::lemma_mul_mod_noop_right(x, 1, n);
}

/// The logarithm read off a meeting solves the problem: for a prime `p` and
/// bases `g`, `h` that `p` does not divide, when tortoise `(x, a, b)` and hare
/// `(x, A, B)` meet after `i` steps and `r = (b - B) mod (p - 1)` has an inverse
/// modulo `p - 1`, then `x = (A - a) · r^-1 mod (p - 1)` satisfies
/// `g^x = h (mod p)`.
pub proof fn lemma_rho_solution(g: int, h: int, p: int, i: int)
    requires
        spec_is_prime(p),
        g % p != 0,
        h % p != 0,
        i >= 0,
        meets(g, h, p, i),
        coprime_mod(
            (rho_walk(g, h, p, i as nat).2 - rho_walk(g, h, p, (2 * i) as nat).2) % (p - 1),
            p - 1,
        ),
    ensures
        ({
            let t = rho_walk(g, h, p, i as nat);
            let u = rho_walk(g, h, p, (2 * i) as nat);
            let x = ((u.1 - t.1) * inv_mod((t.2 - u.2) % (p - 1), p - 1)) % (p - 1);
            0 <= x && pow(g, x as nat) % p == h % p
        }),
{
    let n = p - 1;
    let t = rho_walk(g, h, p, i as nat);
    let u = rho_walk(g, h, p, (2 * i) as nat);
    lemma_walk_form(g, h, p, i as nat);
    lemma_walk_form(g, h, p, (2 * i) as nat);
    let a = t.1;
    let b = t.2;
    let aa = u.1;
    let bb = u.2;
    let r = (b - bb) % n;
    let v = (aa - a) % n;
    let s = inv_mod(r, n);
    crate::math::lemma_inv_mod(r, n);
    vstd::arithmetic::div_mod::lemma_mod_bound(b - bb, n);
    vstd::arithmetic::div_mod::lemma_mod_bound(aa - a, n);
    let x = ((aa - a) * s) % n;
    vstd::arithmetic::div_mod::lemma_mod_bound((aa - a) * s, n);
    // 1. multiply g^a h^b = g^A h^B by g^(n-a) h^(n-B): h^(b+n-B) = g^(A+n-a)
    let ga = pow(g, a as nat);
    let hb = pow(h, b as nat);
    let gaa = pow(g, aa as nat);
    let hbb = pow(h, bb as nat);
    let f = pow(g, (n - a) as nat) * pow(h, (n - bb) as nat);
    lemma_mul_cong(ga * hb, f, gaa * hbb, f, p);
    lemma_pow_adds(g, a as nat, (n - a) as nat);
    lemma_pow_adds(h, b as nat, (n - bb) as nat);
    lemma_pow_adds(g, aa as nat, (n - a) as nat);
    lemma_pow_adds(h, bb as nat, (n - bb) as nat);
    let gn = pow(g, n as nat);
    let hn = pow(h, n as nat);
    let h1 = pow(h, (b + n - bb) as nat);
    let g2 = pow(g, (aa + n - a) as nat);
    assert((ga * hb) * f == gn * h1) by (nonlinear_arith)
        requires
            f == pow(g, (n - a) as nat) * pow(h, (n - bb) as nat),
            gn == ga * pow(g, (n - a) as nat),
            h1 == hb * pow(h, (n - bb) as nat);
    assert((gaa * hbb) * f == g2 * hn) by (nonlinear_arith)
        requires
            f == pow(g, (n - a) as nat) * pow(h, (n - bb) as nat),
            g2 == gaa * pow(g, (n - a) as nat),
            hn == hbb * pow(h, (n - bb) as nat);
    crate::math::lemma_coprime_prime(g, p);
    crate::math::lemma_coprime_prime(h, p);
    crate::fermat::lemma_fermat_power_of_order(g, p, 1);
    crate::fermat::lemma_fermat_power_of_order(h, p, 1);
    assert(1 * (n as nat) == n as nat);
    vstd::arithmetic::div_mod::lemma_small_mod(1, p as nat);
    lemma_mul_cong(gn, h1, 1, h1, p);
    lemma_mul_cong(g2, hn, g2, 1, p);
    assert(h1 % p == g2 % p);
    // 2. reduce the exponents: h^r = g^v
    vstd::arithmetic::div_mod::lemma_mod_twice(b - bb, n);
    vstd::arithmetic::div_mod::lemma_mod_twice(aa - a, n);
    vstd::arithmetic::div_mod::lemma_add_mod_noop(b - bb, n, n);
    vstd::arithmetic::div_mod::lemma_add_mod_noop(aa - a, n, n);
    vstd::arithmetic::div_mod::lemma_mod_self_0(n);
    assert((b + n - bb) % n == r % n);
    assert((aa + n - a) % n == v % n);
    lemma_exp_cong(h, p, (b + n - bb) as nat, r as nat);
    lemma_exp_cong(g, p, (aa + n - a) as nat, v as nat);
    // 3. x · r = v (mod n), so g^(x r) = g^v = h^r
    vstd::arithmetic::div_mod::lemma_mul_mod_noop_left((aa - a) * s, r, n);
    assert((x * r) % n == v % n) by {
        assert(((aa - a) * s * r) % n == (aa - a) % n) by {
            lemma_cancel_exponent(aa - a, r, s, n);
            assert((aa - a) * s * r == (aa - a) * r * s) by (nonlinear_arith);
        }
    }
    assert(x * r >= 0) by (nonlinear_arith) requires x >= 0, r >= 0;
    lemma_exp_cong(g, p, (x * r) as nat, v as nat);
    lemma_pow_multiplies(g, x as nat, r as nat);
    // 4. raise both sides to s: g^x = g^(x r s) = h^(r s) = h
    let gxr = pow(pow(g, x as nat), r as nat);
    let hr = pow(h, r as nat);
    assert(gxr % p == hr % p);
    lemma_pow_mod_noop(gxr, s as nat, p);
    lemma_pow_mod_noop(hr, s as nat, p);
    lemma_pow_multiplies(g, (x * r) as nat, s as nat);
    lemma_pow_multiplies(h, r as nat, s as nat);
    assert(pow(gxr, s as nat) % p == pow(hr, s as nat) % p);
    lemma_cancel_exponent(x, r, s, n);
    vstd::arithmetic::div_mod::lemma_mod_twice((aa - a) * s, n);
    assert(r * s >= 0) by (nonlinear_arith) requires r >= 0, s >= 0;
    assert((x * r) * s >= 0) by (nonlinear_arith) requires x >= 0, r >= 0, s >= 0;
    lemma_exp_cong(g, p, ((x * r) * s) as nat, x as nat);
    lemma_exp_cong(h, p, (r * s) as nat, 1);
    lemma_pow1(h);
}

/// Tortoise and hare meet: `x_i = x_2i`.
pub open spec fn meets(g: int, h: int, p: int, i: int) -> bool {
    rho_walk(g, h, p, i as nat).0 == rho_walk(g, h, p, (2 * i) as nat).0
}

/// Iteration `i` is the first at which tortoise and hare meet.
pub open spec fn first_meeting(g: int, h: int, p: int, i: int) -> bool {
    &&& 1 <= i <= DLOG_STEPS
    &&& meets(g, h, p, i)
    &&& forall|j: int| 1 <= j < i ==> !#[trigger] meets(g, h, p, j)
}

/// Row `i` of the iteration table: tortoise and hare states.
pub open spec fn dlog_row(g: int, h: int, p: int, i: int) -> Seq<Seq<char>> {
    let t = rho_walk(g, h, p, i as nat);
    let u = rho_walk(g, h, p, (2 * i) as nat);
    seq![dec(i), dec(t.0), dec(t.1), dec(t.2), dec(u.0), dec(u.1), dec(u.2)]
}

/// The `k`-th candidate when `gcd(r, p - 1) = d > 1`: `x0 + k (p-1)/d mod (p-1)`,
/// with `x0 = lhs · (r/d)^-1 mod (p-1)/d`.
pub open spec fn candidate_x(g: int, h: int, p: int, i: int, k: int) -> int {
    let n = p - 1;
    let t = rho_walk(g, h, p, i as nat);
    let u = rho_walk(g, h, p, (2 * i) as nat);
    let r = (t.2 - u.2) % n;
    let d = spec_gcd(r as nat, n as nat) as int;
    let np = n / d;
    let x0 = ((((u.1 - t.1) % n) / d) * inv_mod((r / d) % np, np)) % np;
    (x0 + k * np) % n
}

/// Candidate `k` solves `g^x = h (mod p)`.
pub open spec fn candidate_fits(g: int, h: int, p: int, i: int, k: int) -> bool {
    pow(g, candidate_x(g, h, p, i, k) as nat) % p == h % p
}

/// What the method answers after the first meeting at iteration `i`.
pub open spec fn collision_outcome(g: int, h: int, p: int, i: int, r: CalcResult<Trace>) -> bool {
                let n = p - 1;
                let t = rho_walk(g, h, p, i as nat);
                let u = rho_walk(g, h, p, (2 * i) as nat);
                let rr = (t.2 - u.2) % n;
                let d = spec_gcd(rr as nat, n as nat) as int;
                if rr == 0 {
                    r matches Err(CalcError::KeineLoesung(s)) && s@ == "triviale Kollision"@
                } else if d == 1 {
                    r matches Ok(tr) && tr.algorithm@ == "Pollard-Rho für diskreten Logarithmus"@
                        && tr.input_list() == seq![
                        ("g"@, dec(g)),
                        ("h"@, dec(h)),
                        ("p"@, dec(p)),
                    ] && tr.results() == seq![
                        ("x"@, dec(((u.1 - t.1) * inv_mod(rr, n)) % n)),
                    ] && tr.well_formed() && tr.step_titles() == seq![
                        "Iteration mit Partition (S1, S2, S3)"@,
                    ] && tr.step_lines(0) == seq![
                        "x = (a' - a) · (b - b')^(-1) mod (p-1) = "@ + dec(
                            ((u.1 - t.1) * inv_mod(rr, n)) % n,
                        ),
                    ] && (tr.steps@[0].table matches Some(tb)
                        && tb.header_view() == seq!["i"@, "x"@, "a"@, "b"@, "X"@, "A"@, "B"@] && tb.rows_view() == Seq::new(
                        (if i < DLOG_ROWS { i } else { DLOG_ROWS as int }) as nat,
                        |k: int| dlog_row(g, h, p, k + 1),
                    ))
                } else if !coprime_mod((rr / d) % (n / d), n / d) {
                    r matches Err(CalcError::KeinInverses(s)) && s@ == inv_error(
                        (rr / d) % (n / d),
                        n / d,
                    )
                } else {
                    (forall|k: int|
                        #![trigger candidate_fits(g, h, p, i, k)]
                        0 <= k < d && candidate_fits(g, h, p, i, k) && (forall|
                            k2: int,
                        |
                            0 <= k2 < k ==> !#[trigger] candidate_fits(
                                g,
                                h,
                                p,
                                i,
                                k2,
                            )) ==> (r matches Ok(tr) && tr.results() == seq![
                            ("x"@, dec(candidate_x(g, h, p, i, k))),
                        ] && tr.input_list() == seq![
                            ("g"@, dec(g)),
                            ("h"@, dec(h)),
                            ("p"@, dec(p)),
                        ] && tr.well_formed() && tr.step_titles() == seq![
                            "Iteration mit Partition (S1, S2, S3)"@,
                            "Mehrere Lösungen prüfen"@,
                        ] && tr.step_lines(0).len() == 0 && tr.step_lines(1) == seq![
                            "Kandidat x = "@ + dec(candidate_x(g, h, p, i, k)) + " bestätigt."@,
                        ] && tr.steps@[1].table is None)) && ((forall|k: int|
                        0 <= k < d ==> !#[trigger] candidate_fits(
                            g,
                            h,
                            p,
                            i,
                            k,
                        )) ==> (r matches Err(CalcError::KeineLoesung(s)) && s@
                        == "kein Kandidat passt"@))
                }
}

fn step_exec(g: i128, h: i128, p: i128, x: i128, a: i128, b: i128) -> (r: (i128, i128, i128))
    requires
        2 <= p <= MOD_LIMIT,
        (p - 1) * abs(g as int) <= i128::MAX,
        (p - 1) * abs(h as int) <= i128::MAX,
        0 <= x < p,
        0 <= a < p - 1,
        0 <= b < p - 1,
    ensures
        (r.0 as int, r.1 as int, r.2 as int) == rho_step(g as int, h as int, p as int, (x as int, a as int, b as int)),
        0 <= r.0 < p,
        0 <= r.1 < p - 1,
        0 <= r.2 < p - 1,
{
    let n = p - 1;
    let c = rem_euclid(x, 3);
    if c == 0 {
        proof {
            crate::math::lemma_product_fits(x as int, x as int);
        }
        assert(x * x >= 0) by (nonlinear_arith);
        (rem_euclid(x * x, p), rem_euclid(2 * a, n), rem_euclid(2 * b, n))
    } else if c == 1 {
        proof {
            let ag = abs(g as int) as int;
            assert(-((p - 1) * ag) <= x * g <= (p - 1) * ag) by (nonlinear_arith)
                requires 0 <= x <= p - 1, ag >= 0, g == ag || g == -ag;
        }
        (rem_euclid(x * g, p), rem_euclid(a + 1, n), b)
    } else {
        proof {
            let ah = abs(h as int) as int;
            assert(-((p - 1) * ah) <= x * h <= (p - 1) * ah) by (nonlinear_arith)
                requires 0 <= x <= p - 1, ah >= 0, h == ah || h == -ah;
        }
        (rem_euclid(x * h, p), a, rem_euclid(b + 1, n))
    }
}

/// One round: the tortoise takes one step, the hare two.
fn advance(
    g: i128,
    h: i128,
    p: i128,
    i: i128,
    t: (i128, i128, i128),
    u: (i128, i128, i128),
) -> (r: ((i128, i128, i128), (i128, i128, i128)))
    requires
        2 <= p <= MOD_LIMIT,
        (p - 1) * abs(g as int) <= i128::MAX,
        (p - 1) * abs(h as int) <= i128::MAX,
        1 <= i,
        (t.0 as int, t.1 as int, t.2 as int) == rho_walk(g as int, h as int, p as int, (i - 1) as nat),
        (u.0 as int, u.1 as int, u.2 as int) == rho_walk(g as int, h as int, p as int, (2 * (i - 1)) as nat),
        0 <= t.0 < p && 0 <= t.1 < p - 1 && 0 <= t.2 < p - 1,
        0 <= u.0 < p && 0 <= u.1 < p - 1 && 0 <= u.2 < p - 1,
    ensures
        (r.0.0 as int, r.0.1 as int, r.0.2 as int) == rho_walk(g as int, h as int, p as int, i as nat),
        (r.1.0 as int, r.1.1 as int, r.1.2 as int) == rho_walk(g as int, h as int, p as int, (2 * i) as nat),
        0 <= r.0.0 < p && 0 <= r.0.1 < p - 1 && 0 <= r.0.2 < p - 1,
        0 <= r.1.0 < p && 0 <= r.1.1 < p - 1 && 0 <= r.1.2 < p - 1,
{
    let st = step_exec(g, h, p, t.0, t.1, t.2);
    let st2 = step_exec(g, h, p, u.0, u.1, u.2);
    let st3 = step_exec(g, h, p, st2.0, st2.1, st2.2);
    proof {
        assert(rho_walk(g as int, h as int, p as int, (2 * i) as nat) == rho_step(
            g as int,
            h as int,
            p as int,
            rho_walk(g as int, h as int, p as int, (2 * i - 1) as nat),
        ));
    }
    (st, st3)
}

/// The first meeting is unique.
proof fn lemma_first_meeting_unique(g: int, h: int, p: int, i: int)
    requires
        first_meeting(g, h, p, i),
    ensures
        forall|i2: int| #[trigger] first_meeting(g, h, p, i2) ==> i2 == i,
{
    assert forall|i2: int| #[trigger] first_meeting(g, h, p, i2) implies i2 == i by {
        if i2 < i {
            assert(!meets(g, h, p, i2));
        } else if i2 > i {
            assert(meets(g, h, p, i));
        }
    }
}

/// Solves the collision `g^a h^b = g^A h^B` at the first meeting `i` for `x`.
fn resolve_collision(
    g: i128,
    h: i128,
    p: i128,
    i: i128,
    a: i128,
    b: i128,
    a2: i128,
    b2: i128,
    t: Trace,
) -> (r: CalcResult<Trace>)
    requires
        spec_is_prime(p as int),
        2 <= p <= MOD_LIMIT,
        first_meeting(g as int, h as int, p as int, i as int),
        (a as int, b as int) == (rho_walk(g as int, h as int, p as int, i as nat).1, rho_walk(g as int, h as int, p as int, i as nat).2),
        (a2 as int, b2 as int) == (rho_walk(g as int, h as int, p as int, (2 * i) as nat).1, rho_walk(g as int, h as int, p as int, (2 * i) as nat).2),
        0 <= a < p - 1,
        0 <= b < p - 1,
        0 <= a2 < p - 1,
        0 <= b2 < p - 1,
        t.steps@.len() == 1,
        t.step_titles() == seq!["Iteration mit Partition (S1, S2, S3)"@],
        t.step_lines(0).len() == 0,
        t.input_list() == seq![("g"@, dec(g as int)), ("h"@, dec(h as int)), ("p"@, dec(p as int))],
        t.algorithm@ == "Pollard-Rho für diskreten Logarithmus"@,
        t.results().len() == 0,
        t.well_formed(),
        t.steps@[0].table matches Some(tb) && tb.header_view() == seq!["i"@, "x"@, "a"@, "b"@, "X"@, "A"@, "B"@] && tb.rows_view() == Seq::new(
            (if i < DLOG_ROWS { i as int } else { DLOG_ROWS as int }) as nat,
            |k: int| dlog_row(g as int, h as int, p as int, k + 1),
        ),
    ensures
        collision_outcome(g as int, h as int, p as int, i as int, r),
{
    let n = p - 1;
    let s: usize = 0;
    let mut t = t;
    let rr = rem_euclid(b - b2, n);
    if rr == 0 {
        return Err(CalcError::KeineLoesung(String::from_str("triviale Kollision")));
    }
    let g_div = gcd(rr, n);
    proof {
        lemma_gcd_divides(rr as nat, n as nat);
        assert(g_div as int == spec_gcd(rr as nat, n as nat));
        assert((rr as int) % (g_div as int) == 0 && (n as int) % (g_div as int) == 0);
        vstd::arithmetic::div_mod::lemma_fundamental_div_mod(rr as int, g_div as int);
        vstd::arithmetic::div_mod::lemma_div_pos_is_pos(rr as int, g_div as int);
        assert(g_div <= rr) by (nonlinear_arith)
            requires rr == g_div * (rr / g_div), rr > 0, g_div > 0, rr / g_div >= 0;
        vstd::arithmetic::div_mod::lemma_small_mod(rr as nat, n as nat);
    }
    if g_div != 1 {
        assert(t.steps@[0].title@ == t.step_titles()[0]);
        let s2 = t.step("Mehrere Lösungen prüfen");
        assert(t.step_titles() =~= seq![
            "Iteration mit Partition (S1, S2, S3)"@,
            "Mehrere Lösungen prüfen"@,
        ]);
        let n_p = n / g_div;
        let r_p = rr / g_div;
        let lhs = rem_euclid(a2 - a, n) / g_div;
        proof {
            assert(n_p >= 1) by (nonlinear_arith)
                requires n_p == n / g_div, n >= 1, g_div >= 1, n % g_div == 0;
            assert(n_p <= n) by (nonlinear_arith)
                requires n_p == n / g_div, n >= 1, g_div >= 1;
            let am = (a2 - a) % (n as int);
            assert(0 <= am < n);
            assert(0 <= lhs <= n) by (nonlinear_arith)
                requires lhs == am / (g_div as int), 0 <= am < n, g_div >= 1;
        }
        let inv = match mod_inv(rem_euclid(r_p, n_p), n_p) {
            Ok(v) => v,
            Err(e) => return Err(e),
        };
        proof {
            crate::math::lemma_product_fits(lhs as int, inv as int);
        }
        let x0 = rem_euclid(lhs * inv, n_p);
        let mut k: i128 = 0;
        while k < g_div
            invariant
                0 <= k <= g_div,
                1 <= g_div <= n,
                (n as int) % (g_div as int) == 0,
                0 < rr < n,
                g_div != 1,
                g_div == spec_gcd(rr as nat, n as nat),
                coprime_mod(((rr / g_div) as int) % (n_p as int), n_p as int),
                n_p == n / g_div,
                1 <= n_p <= n,
                k * n_p <= n,
                0 <= x0 < n_p,
                2 <= p <= MOD_LIMIT,
                n == p - 1,
                x0 == ((((a2 - a) % (n as int)) / (g_div as int)) * inv_mod(
                    ((rr / g_div) as int) % (n_p as int),
                    n_p as int,
                )) % (n_p as int),
                rr == ((b - b2) as int) % (n as int),
                forall|k2: int| 0 <= k2 < k ==> !#[trigger] candidate_fits(
                    g as int,
                    h as int,
                    p as int,
                    i as int,
                    k2,
                ),
                (a as int, b as int) == (rho_walk(g as int, h as int, p as int, i as nat).1, rho_walk(g as int, h as int, p as int, i as nat).2),
                (a2 as int, b2 as int) == (rho_walk(g as int, h as int, p as int, (2 * i) as nat).1, rho_walk(g as int, h as int, p as int, (2 * i) as nat).2),
                spec_is_prime(p as int),
                first_meeting(g as int, h as int, p as int, i as int),
                0 <= a < p - 1,
                0 <= b < p - 1,
                0 <= a2 < p - 1,
                0 <= b2 < p - 1,
                s2 == 1,
                t.steps@.len() == 2,
                t.step_titles() == seq![
                    "Iteration mit Partition (S1, S2, S3)"@,
                    "Mehrere Lösungen prüfen"@,
                ],
                t.step_lines(0).len() == 0,
                t.step_lines(1).len() == 0,
                t.steps@[1].table is None,
                t.input_list() == seq![("g"@, dec(g as int)), ("h"@, dec(h as int)), ("p"@, dec(p as int))],
                t.results().len() == 0,
                t.well_formed(),
            decreases g_div - k,
        {
            let cand = rem_euclid(x0 + k * n_p, n);
            assert(cand as int == candidate_x(g as int, h as int, p as int, i as int, k as int));
            let v = match mod_pow(g, cand, p) {
                Ok(v) => v,
                Err(e) => return Err(e),
            };
            if v == rem_euclid(h, p) {
                let l = text_int("Kandidat x = ", cand);
                let mut l = l;
                crate::text::push_str(&mut l, " bestätigt.");
                t.line(s2, l.as_str());
                t.result_int("x", cand);
                proof {
                    assert(candidate_fits(g as int, h as int, p as int, i as int, k as int));
                    assert forall|k3: int|
                        0 <= k3 < g_div && candidate_fits(g as int, h as int, p as int, i as int, k3)
                            && (forall|k2: int| 0 <= k2 < k3 ==> !#[trigger] candidate_fits(g as int, h as int, p as int, i as int, k2))
                        implies k3 == k by {
                        if k3 < k {
                            assert(!candidate_fits(g as int, h as int, p as int, i as int, k3));
                        } else if k3 > k {
                            assert(candidate_fits(g as int, h as int, p as int, i as int, k as int));
                        }
                    }
                    let tw = rho_walk(g as int, h as int, p as int, i as nat);
                    let uw = rho_walk(g as int, h as int, p as int, (2 * i) as nat);
                    assert((tw.2 - uw.2) % (n as int) == rr);
                    assert(spec_gcd(rr as nat, n as nat) as int == g_div);
                    assert(t.results() == seq![("x"@, dec(cand as int))]);
                    assert(t.step_lines(1) =~= seq![l@]);
                    assert(t.step_titles() =~= seq![
                        "Iteration mit Partition (S1, S2, S3)"@,
                        "Mehrere Lösungen prüfen"@,
                    ]);
                }
                return Ok(t);
            }
            assert((k + 1) * n_p <= n) by (nonlinear_arith)
                requires k < g_div, n_p == n / g_div, n % g_div == 0, g_div >= 1, n >= 1, k >= 0;
            k += 1;
        }
        return Err(CalcError::KeineLoesung(String::from_str("kein Kandidat passt")));
    }
    assert(coprime_mod(rr as int, n as int));
    let inv = match mod_inv(rr, n) {
        Ok(v) => v,
        Err(e) => return Err(e),
    };
    proof {
        crate::math::lemma_product_fits((a2 - a) as int, inv as int);
    }
    let x_sol = rem_euclid((a2 - a) * inv, n);
    let l = text_int("x = (a' - a) · (b - b')^(-1) mod (p-1) = ", x_sol);
    t.line(s, l.as_str());
    t.result_int("x", x_sol);
    assert(t.algorithm@ == "Pollard-Rho für diskreten Logarithmus"@);
    assert(t.results() == seq![("x"@, dec(x_sol as int))]);
    assert(t.step_lines(0) =~= seq![l@]);
    assert(t.step_titles() =~= seq!["Iteration mit Partition (S1, S2, S3)"@]);
    return Ok(t);
}

/// Pollard's rho for `g^x = h (mod p)`: walk tortoise `(x, a, b)` and hare
/// `(X, A, B)` until `x = X`, then solve `(b - B) x = A - a (mod p - 1)`;
/// when `d = gcd(b - B, p - 1) > 1`, test the `d` candidates.
pub fn solve(g: i128, h: i128, p: i128) -> (r: CalcResult<Trace>)
    requires
        p <= TRIAL_LIMIT,
        spec_is_prime(p as int) ==> p <= MOD_LIMIT,
        spec_is_prime(p as int) ==> (p - 1) * abs(g as int) <= i128::MAX,
        spec_is_prime(p as int) ==> (p - 1) * abs(h as int) <= i128::MAX,
    ensures
        !spec_is_prime(p as int) ==> (r matches Err(CalcError::NichtPrim(s)) && s@ == dec(
            p as int,
        )),
        spec_is_prime(p as int) && (forall|j: int| 1 <= j <= DLOG_STEPS ==> !#[trigger] meets(
            g as int,
            h as int,
            p as int,
            j,
        )) ==> (r matches Err(CalcError::KeineLoesung(s)) && s@ == "Iterationsgrenze erreicht"@),
        spec_is_prime(p as int) ==> forall|i: int|
            #![trigger first_meeting(g as int, h as int, p as int, i)]
            first_meeting(g as int, h as int, p as int, i) ==> collision_outcome(
                g as int,
                h as int,
                p as int,
                i,
                r,
            ),
{
    if !is_prime(p) {
        return Err(CalcError::NichtPrim(int_text(p)));
    }
    let n = p - 1;
    let mut t = Trace::new("Pollard-Rho für diskreten Logarithmus");
    t.input_int("g", g);
    t.input_int("h", h);
    t.input_int("p", p);

    let s = t.step("Iteration mit Partition (S1, S2, S3)");
    assert(t.step_titles() =~= seq!["Iteration mit Partition (S1, S2, S3)"@]);
    let headers: Vec<String> = vec![
        String::from_str("i"),
        String::from_str("x"),
        String::from_str("a"),
        String::from_str("b"),
        String::from_str("X"),
        String::from_str("A"),
        String::from_str("B"),
    ];
    assert(headers@.map_values(|h: String| h@) =~= seq!["i"@, "x"@, "a"@, "b"@, "X"@, "A"@, "B"@]);
    let mut rows: Vec<Vec<String>> = Vec::new();
    let mut x: i128 = 1;
    let mut a: i128 = 0;
    let mut b: i128 = 0;
    let mut x2: i128 = 1;
    let mut a2: i128 = 0;
    let mut b2: i128 = 0;
    let mut i: i128 = 1;
    while i <= DLOG_STEPS
        invariant
            spec_is_prime(p as int),
            2 <= p <= MOD_LIMIT,
            n == p - 1,
            (p - 1) * abs(g as int) <= i128::MAX,
            (p - 1) * abs(h as int) <= i128::MAX,
            1 <= i <= DLOG_STEPS + 1,
            (x as int, a as int, b as int) == rho_walk(g as int, h as int, p as int, (i - 1) as nat),
            (x2 as int, a2 as int, b2 as int) == rho_walk(
                g as int,
                h as int,
                p as int,
                (2 * (i - 1)) as nat,
            ),
            0 <= x < p,
            0 <= a < p - 1,
            0 <= b < p - 1,
            0 <= x2 < p,
            0 <= a2 < p - 1,
            0 <= b2 < p - 1,
            forall|j: int| 1 <= j < i ==> !#[trigger] meets(g as int, h as int, p as int, j),
            rows@.len() == (if i - 1 < DLOG_ROWS { i - 1 } else { DLOG_ROWS as int }),
            forall|k: int|
                0 <= k < rows@.len() ==> (#[trigger] rows@[k])@.map_values(|c: String| c@)
                    == dlog_row(g as int, h as int, p as int, k + 1),
            s == 0,
            t.steps@.len() == 1,
            t.step_titles() == seq!["Iteration mit Partition (S1, S2, S3)"@],
            t.step_lines(0).len() == 0,
            headers@.map_values(|h: String| h@) == seq!["i"@, "x"@, "a"@, "b"@, "X"@, "A"@, "B"@],
            t.input_list() == seq![("g"@, dec(g as int)), ("h"@, dec(h as int)), ("p"@, dec(p as int))],
            t.algorithm@ == "Pollard-Rho für diskreten Logarithmus"@,
            t.results().len() == 0,
            t.well_formed(),
        decreases DLOG_STEPS + 1 - i,
    {
        let (nt, nu) = advance(g, h, p, i, (x, a, b), (x2, a2, b2));
        x = nt.0;
        a = nt.1;
        b = nt.2;
        x2 = nu.0;
        a2 = nu.1;
        b2 = nu.2;
        if rows.len() < DLOG_ROWS {
            let row: Vec<String> = vec![
                int_text(i),
                int_text(x),
                int_text(a),
                int_text(b),
                int_text(x2),
                int_text(a2),
                int_text(b2),
            ];
            proof {
                assert(row@.map_values(|c: String| c@) =~= dlog_row(
                    g as int,
                    h as int,
                    p as int,
                    i as int,
                ));
            }
            rows.push(row);
        }
        if x == x2 {
            let tb = Table { headers, rows };
            assert(tb.header_view() =~= seq!["i"@, "x"@, "a"@, "b"@, "X"@, "A"@, "B"@]);
            proof {
                assert(first_meeting(g as int, h as int, p as int, i as int));
                lemma_first_meeting_unique(g as int, h as int, p as int, i as int);
                assert(tb.rows_view() =~= Seq::new(
                    (if i < DLOG_ROWS { i as int } else { DLOG_ROWS as int }) as nat,
                    |k: int| dlog_row(g as int, h as int, p as int, k + 1),
                ));
            }
            assert(t.steps@[0].title@ == t.step_titles()[0]);
            assert(t.step_lines(0).len() == 0);
            t.table(s, tb);
            assert(t.step_titles() =~= seq!["Iteration mit Partition (S1, S2, S3)"@]);
            return resolve_collision(g, h, p, i, a, b, a2, b2, t);
        }
        i += 1;
    }
    t.table(s, Table { headers, rows });
    Err(CalcError::KeineLoesung(String::from_str("Iterationsgrenze erreicht")))
}

} // verus!
