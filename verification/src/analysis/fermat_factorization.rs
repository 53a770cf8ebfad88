//! Fermat factorization: search `a >= ceil(sqrt(n))` with `a² - n` a square.
use vstd::prelude::*;
use crate::error::{CalcError, CalcResult};
use crate::math::{TRIAL_LIMIT, is_isqrt, isqrt};
use crate::text::{dec, int_text, push_int, push_str, text_int};
use crate::trace::{Table, Trace};

verus! {

/// Largest number of `a` values tried after the first.
pub const FERMAT_STEPS: i128 = 1_000_000;

/// `b` is the nonnegative square root of `d`.
pub open spec fn is_root_of(b: int, d: int) -> bool {
    0 <= b && b * b == d
}

/// `d` is a perfect square.
pub open spec fn is_square(d: int) -> bool {
    exists|b: int| #[trigger] is_root_of(b, d)
}

/// The square root of a perfect square.
pub open spec fn square_root(d: int) -> int {
    choose|b: int| #[trigger] is_root_of(b, d)
}

/// `a` is the first candidate: the least `a >= 0` with `a² >= n`.
pub open spec fn fermat_start(n: int, a: int) -> bool {
    0 <= a && (a - 1) * (a - 1) < n <= a * a
}

/// `a` is the first value from `a0` on with `a² - n` a square.
pub open spec fn first_square_from(n: int, a0: int, a: int) -> bool {
    &&& a0 <= a
    &&& is_square(a * a - n)
    &&& forall|c: int| a0 <= c < a ==> !#[trigger] is_square(c * c - n)
}

/// A row of the search table: `a`, `a² - n`, and `d = b²` when it is a square.
pub open spec fn fermat_row(n: int, a: int) -> Seq<Seq<char>> {
    let d = a * a - n;
    if is_square(d) {
        seq![dec(a), dec(d), dec(d) + " = "@ + dec(square_root(d)) + "²"@]
    } else {
        seq![dec(a), dec(d), "nein"@]
    }
}

/// The factors that Fermat's method reads off: `a² - b² = (a - b)(a + b)`.
pub proof fn lemma_fermat_product(n: int, a: int, b: int)
    requires
        a * a - n == b * b,
    ensures
        (a - b) * (a + b) == n,
{
    assert((a - b) * (a + b) == a * a - b * b) by (nonlinear_arith);
}

/// The integer square root decides whether a number is a perfect square.
proof fn lemma_isqrt_square(d: int, r: int)
    requires
        is_isqrt(d, r),
    ensures
        is_square(d) <==> r * r == d,
        is_square(d) ==> square_root(d) == r,
{
    if is_square(d) {
        let b = square_root(d);
        assert(b == r) by (nonlinear_arith)
            requires 0 <= b, b * b == d, 0 <= r, r * r <= d, d < (r + 1) * (r + 1);
    }
    if r * r == d {
        assert(is_root_of(r, d));
    }
}

/// Fermat factorization of an odd `n > 1`: the first `a >= ceil(sqrt(n))`
/// with `a² - n = b²` gives `n = (a - b)(a + b)`; at most `FERMAT_STEPS + 1`
/// values of `a` are tried.
pub fn factor(n: i128) -> (r: CalcResult<Trace>)
    requires
        n <= TRIAL_LIMIT,
    ensures
        n <= 1 ==> (r matches Err(CalcError::Bereich(s)) && s@ == "n muss > 1 sein"@),
        n > 1 && n % 2 == 0 ==> (r matches Err(CalcError::UngueltigeEingabe(s)) && s@
            == "n muss ungerade sein"@),
        n > 1 && n % 2 != 0 ==> forall|a0: int, a: int|
            #![trigger fermat_start(n as int, a0), first_square_from(n as int, a0, a)]
            fermat_start(n as int, a0) && first_square_from(n as int, a0, a) ==> (if a - a0
                <= FERMAT_STEPS {
                r matches Ok(t) && t.algorithm@ == "Fermat-Faktorisierung"@ && t.input_list()
                    == seq![("n"@, dec(n as int))] && t.results() == seq![
                    ("Faktor 1"@, dec(a - square_root(a * a - n))),
                    ("Faktor 2"@, dec(a + square_root(a * a - n))),
                ] && t.step_lines(0) == seq![
                    "n = (a - b)(a + b) = "@ + dec(a - square_root(a * a - n)) + " · "@ + dec(
                        a + square_root(a * a - n),
                    ),
                ] && t.well_formed() && t.step_titles() == seq!["Suche nach a mit a² - n = b²"@] && (t.steps@[0].table matches Some(tb) && tb.header_view()
                    == seq!["a"@, "a² - n"@, "b² ?"@] && tb.rows_view() == Seq::new(
                    (a - a0 + 1) as nat,
                    |k: int| fermat_row(n as int, a0 + k),
                ))
            } else {
                r matches Err(CalcError::KeineLoesung(s)) && s@ == "Iterationsgrenze erreicht"@
            }),
{
    if n <= 1 {
        return Err(CalcError::Bereich(String::from_str("n muss > 1 sein")));
    }
    if n % 2 == 0 {
        return Err(CalcError::UngueltigeEingabe(String::from_str("n muss ungerade sein")));
    }
    let mut t = Trace::new("Fermat-Faktorisierung");
    t.input_int("n", n);

    let s = t.step("Suche nach a mit a² - n = b²");
    assert(t.step_titles() =~= seq!["Suche nach a mit a² - n = b²"@]);
    let r0 = isqrt(n);
    proof {
        assert(r0 <= 0x8000_0000_0000_0000) by (nonlinear_arith)
            requires 0 <= r0, r0 * r0 <= n, n <= TRIAL_LIMIT;
    }
    let mut a = r0;
    if r0 * r0 < n {
        a = r0 + 1;
        assert(fermat_start(n as int, a as int)) by (nonlinear_arith)
            requires a == r0 + 1, is_isqrt(n as int, r0 as int), r0 * r0 < n;
    } else {
        assert(fermat_start(n as int, a as int)) by (nonlinear_arith)
            requires a == r0, is_isqrt(n as int, r0 as int), r0 * r0 == n, n >= 3;
    }
    let ghost a0 = a as int;
    proof {
        // the start is unique
        assert forall|b0: int| #[trigger] fermat_start(n as int, b0) implies b0 == a0 by {
            assert(b0 == a0) by (nonlinear_arith)
                requires fermat_start(n as int, b0), fermat_start(n as int, a0);
        }
    }
    let headers: Vec<String> = vec![
        String::from_str("a"),
        String::from_str("a² - n"),
        String::from_str("b² ?"),
    ];
    let mut rows: Vec<Vec<String>> = Vec::new();
    let mut iters: i128 = 0;
    assert(headers@.map_values(|h: String| h@) =~= seq!["a"@, "a² - n"@, "b² ?"@]);
    loop
        invariant
            3 <= n <= TRIAL_LIMIT,
            n % 2 != 0,
            s == 0,
            headers@.map_values(|h: String| h@) == seq!["a"@, "a² - n"@, "b² ?"@],
            fermat_start(n as int, a0),
            forall|b0: int| #[trigger] fermat_start(n as int, b0) ==> b0 == a0,
            0 <= a0 <= 0x8000_0000_0000_0001,
            a == a0 + iters,
            0 <= iters <= FERMAT_STEPS,
            forall|c: int| a0 <= c < a ==> !#[trigger] is_square(c * c - n),
            rows@.len() == iters,
            forall|k: int|
                0 <= k < iters ==> (#[trigger] rows@[k])@.map_values(|c: String| c@) == fermat_row(
                    n as int,
                    a0 + k,
                ),
            t.input_list() == seq![("n"@, dec(n as int))],
            t.algorithm@ == "Fermat-Faktorisierung"@,
            t.results().len() == 0,
            t.steps@.len() == 1,
            t.step_titles() == seq!["Suche nach a mit a² - n = b²"@],
            t.steps@[0].lines@.len() == 0,
            t.well_formed(),
        decreases FERMAT_STEPS - iters,
    {
        assert(a * a <= 0x7fff_ffff_ffff_ffff_ffff_ffff_ffff_ffff) by (nonlinear_arith)
            requires 0 <= a <= 0x8000_0000_0000_0001 + 1_000_000;
        assert(a * a >= n) by (nonlinear_arith)
            requires a >= a0, fermat_start(n as int, a0);
        let diff = a * a - n;
        let b = isqrt(diff);
        assert(b * b <= diff);
        assert(b <= a) by (nonlinear_arith)
            requires 0 <= b, b * b <= diff, diff == a * a - n, n >= 3, a >= 0;
        let is_sq = b * b == diff;
        proof {
            lemma_isqrt_square(diff as int, b as int);
        }
        let third = if is_sq {
            let mut x = int_text(diff);
            push_str(&mut x, " = ");
            push_int(&mut x, b);
            push_str(&mut x, "²");
            x
        } else {
            String::from_str("nein")
        };
        let row: Vec<String> = vec![int_text(a), int_text(diff), third];
        proof {
            assert(row@.map_values(|c: String| c@) =~= fermat_row(n as int, a as int));
        }
        rows.push(row);
        if is_sq {
            let tb = Table { headers, rows };
            proof {
                assert(tb.header_view() =~= seq!["a"@, "a² - n"@, "b² ?"@]);
                assert(tb.rows_view() =~= Seq::new(
                    (a - a0 + 1) as nat,
                    |k: int| fermat_row(n as int, a0 + k),
                ));
                assert(first_square_from(n as int, a0, a as int));
                assert forall|c: int| #[trigger] first_square_from(n as int, a0, c) implies c == a by {
                    if c < a {
                        assert(!is_square(c * c - n));
                    } else if c > a {
                        assert(!is_square(a * a - n));
                    }
                }
            }
            t.table(s, tb);
            let p = a - b;
            let q = a + b;
            let mut l = text_int("n = (a - b)(a + b) = ", p);
            push_str(&mut l, " · ");
            push_int(&mut l, q);
            t.line(s, l.as_str());
            t.result_int("Faktor 1", p);
            t.result_int("Faktor 2", q);
            assert(t.step_lines(0) =~= seq![l@]);
            assert(t.step_titles() =~= seq!["Suche nach a mit a² - n = b²"@]);
            return Ok(t);
        }
        a += 1;
        iters += 1;
        if iters > FERMAT_STEPS {
            t.table(s, Table { headers, rows });
            proof {
                assert forall|c: int| #[trigger] first_square_from(n as int, a0, c) implies c - a0
                    > FERMAT_STEPS by {
                    if c - a0 <= FERMAT_STEPS {
                        assert(!is_square(c * c - n));
                    }
                }
            }
            return Err(CalcError::KeineLoesung(String::from_str("Iterationsgrenze erreicht")));
        }
    }
}

} // verus!
