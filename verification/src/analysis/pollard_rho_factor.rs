//! Pollard's rho factorization with `f(x) = x² + 1 mod n` and Floyd's cycle
//! detection.
use vstd::prelude::*;
use crate::error::{CalcError, CalcResult};
use crate::math::{MOD_LIMIT, abs, gcd, lemma_gcd_divides, rem_euclid, spec_gcd};
use crate::text::{dec, int_text};
use crate::trace::{Table, Trace};

verus! {

/// Largest number of iterations.
pub const RHO_STEPS: i128 = 100_000;

/// The iteration map `x ↦ x² + 1 mod n`.
pub open spec fn rho_f(x: int, n: int) -> int {
    (x * x + 1) % n
}

/// `f` applied `i` times to the start value 2.
pub open spec fn rho_seq(n: int, i: nat) -> int
    decreases i,
{
    if i == 0 {
        2
    } else {
        rho_f(rho_seq(n, (i - 1) as nat), n)
    }
}

/// The sequence is the documented one: it starts at 2 and each value is the
/// square of the previous one plus 1, reduced modulo `n`; `y = x_2i` takes two
/// such steps per iteration.
pub proof fn lemma_rho_sequence(n: int, i: nat)
    ensures
        rho_seq(n, 0) == 2,
        rho_seq(n, i + 1) == (rho_seq(n, i) * rho_seq(n, i) + 1) % n,
        rho_seq(n, 2 * (i + 1)) == ({
            let y = rho_seq(n, 2 * i);
            let y1 = (y * y + 1) % n;
            (y1 * y1 + 1) % n
        }),
{
    let j: nat = 2 * i;
    assert(rho_seq(n, j + 1) == rho_f(rho_seq(n, j), n));
    assert(rho_seq(n, (j + 1) + 1) == rho_f(rho_seq(n, j + 1), n));
    assert(2 * (i + 1) == (j + 1) + 1);
}

/// `gcd(|x_i - x_2i|, n)`: the value tested in iteration `i`.
pub open spec fn rho_gcd(n: int, i: nat) -> int {
    spec_gcd(abs(rho_seq(n, i) - rho_seq(n, 2 * i)), n as nat) as int
}

/// Iteration `i >= 1` is the first whose gcd is not 1.
pub open spec fn first_hit(n: int, i: int) -> bool {
    &&& 1 <= i
    &&& rho_gcd(n, i as nat) != 1
    &&& forall|j: int| 1 <= j < i ==> #[trigger] rho_gcd(n, j as nat) == 1
}

/// Row `i` of the iteration table: `i, x_i, x_2i, |x_i - x_2i|, gcd`.
pub open spec fn rho_row(n: int, i: int) -> Seq<Seq<char>> {
    seq![
        dec(i),
        dec(rho_seq(n, i as nat)),
        dec(rho_seq(n, (2 * i) as nat)),
        dec(abs(rho_seq(n, i as nat) - rho_seq(n, (2 * i) as nat)) as int),
        dec(rho_gcd(n, i as nat)),
    ]
}

fn rho_step(x: i128, n: i128) -> (y: i128)
    requires
        0 <= x < n <= MOD_LIMIT,
    ensures
        y == rho_f(x as int, n as int),
        0 <= y < n,
{
    proof {
        crate::math::lemma_product_fits(x as int, x as int);
    }
    rem_euclid(x * x + 1, n)
}

/// Pollard's rho method: iterate `x ← f(x)`, `y ← f(f(y))` from 2 until
/// `d = gcd(|x - y|, n) != 1`, for at most `RHO_STEPS` iterations.
pub fn factor(n: i128) -> (r: CalcResult<Trace>)
    requires
        n % 2 != 0 ==> n <= MOD_LIMIT,
    ensures
        n <= 1 ==> (r matches Err(CalcError::Bereich(s)) && s@ == "n muss > 1 sein"@),
        n > 1 && n % 2 == 0 ==> (r matches Ok(t) && t.algorithm@ == "Pollard-Rho-Faktorisierung"@
            && t.input_list() == seq![("n"@, dec(n as int))] && t.results() == seq![
            ("Faktor"@, dec(2)),
        ] && t.step_lines(0) == seq!["n ist gerade, Faktor 2 gefunden."@] && t.well_formed()
            && t.step_titles() == seq!["Geradzahligkeit"@] && t.steps@[0].table is None),
        n > 1 && n % 2 != 0 && (forall|j: int| 1 <= j <= RHO_STEPS ==> #[trigger] rho_gcd(n as int, j as nat) == 1)
            ==> (r matches Err(CalcError::KeineLoesung(s)) && s@ == "Iterationsgrenze erreicht"@),
        n > 1 && n % 2 != 0 ==> forall|k: int|
            #![trigger first_hit(n as int, k)]
            first_hit(n as int, k) && k <= RHO_STEPS ==> (if rho_gcd(n as int, k as nat) == n {
                r matches Err(CalcError::KeineLoesung(s)) && s@ == "nur trivialer Faktor gefunden"@
            } else {
                (n as int) % rho_gcd(n as int, k as nat) == 0 && (r matches Ok(t) && t.algorithm@
                    == "Pollard-Rho-Faktorisierung"@ && t.input_list() == seq![
                    ("n"@, dec(n as int)),
                ] && t.results() == seq![
                    ("Faktor"@, dec(rho_gcd(n as int, k as nat))),
                    ("Co-Faktor"@, dec((n as int) / rho_gcd(n as int, k as nat))),
                ] && t.well_formed() && t.step_titles() == seq!["Iteration f(x) = x² + 1 mod n"@]
                    && t.step_lines(0).len() == 0 && (t.steps@[0].table matches Some(tb) && tb.header_view()
                    == seq!["i"@, "x"@, "y"@, "|x - y|"@, "gcd"@] && tb.rows_view() == Seq::new(
                    k as nat,
                    |i: int| rho_row(n as int, i + 1),
                )))
            }),
{
    if n <= 1 {
        return Err(CalcError::Bereich(String::from_str("n muss > 1 sein")));
    }
    let mut t = Trace::new("Pollard-Rho-Faktorisierung");
    t.input_int("n", n);
    if n % 2 == 0 {
        let s = t.step("Geradzahligkeit");
        t.line(s, "n ist gerade, Faktor 2 gefunden.");
        t.result_int("Faktor", 2);
        assert(t.step_lines(0) =~= seq!["n ist gerade, Faktor 2 gefunden."@]);
        assert(t.step_titles() =~= seq!["Geradzahligkeit"@]);
        return Ok(t);
    }
    let s = t.step("Iteration f(x) = x² + 1 mod n");
    assert(t.step_titles() =~= seq!["Iteration f(x) = x² + 1 mod n"@]);
    let headers: Vec<String> = vec![
        String::from_str("i"),
        String::from_str("x"),
        String::from_str("y"),
        String::from_str("|x - y|"),
        String::from_str("gcd"),
    ];
    let mut rows: Vec<Vec<String>> = Vec::new();
    let mut x: i128 = 2;
    let mut y: i128 = 2;
    let mut d: i128 = 1;
    let mut i: i128 = 0;
    assert(headers@.map_values(|h: String| h@) =~= seq!["i"@, "x"@, "y"@, "|x - y|"@, "gcd"@]);
    while d == 1
        invariant
            3 <= n <= MOD_LIMIT,
            n % 2 != 0,
            s == 0,
            t.steps@.len() == 1,
            t.step_titles() == seq!["Iteration f(x) = x² + 1 mod n"@],
            t.step_lines(0).len() == 0,
            headers@.map_values(|h: String| h@) == seq!["i"@, "x"@, "y"@, "|x - y|"@, "gcd"@],
            0 <= i <= RHO_STEPS,
            0 <= x < n,
            0 <= y < n,
            x == rho_seq(n as int, i as nat),
            y == rho_seq(n as int, (2 * i) as nat),
            i >= 1 ==> d == rho_gcd(n as int, i as nat),
            i == 0 ==> d == 1,
            forall|j: int| 1 <= j < i ==> #[trigger] rho_gcd(n as int, j as nat) == 1,
            rows@.len() == i,
            forall|j: int|
                0 <= j < i ==> (#[trigger] rows@[j])@.map_values(|c: String| c@) == rho_row(
                    n as int,
                    j + 1,
                ),
            t.input_list() == seq![("n"@, dec(n as int))],
            t.algorithm@ == "Pollard-Rho-Faktorisierung"@,
            t.results().len() == 0,
            t.well_formed(),
        decreases RHO_STEPS - i,
    {
        x = rho_step(x, n);
        let y1 = rho_step(y, n);
        y = rho_step(y1, n);
        proof {
            assert(rho_seq(n as int, (2 * (i + 1)) as nat) == rho_f(
                rho_seq(n as int, (2 * i + 1) as nat),
                n as int,
            ));
        }
        let diff = if x >= y {
            x - y
        } else {
            y - x
        };
        d = gcd(diff, n);
        i += 1;
        let row: Vec<String> = vec![int_text(i), int_text(x), int_text(y), int_text(diff), int_text(d)];
        proof {
            assert(row@.map_values(|c: String| c@) =~= rho_row(n as int, i as int));
        }
        rows.push(row);
        if i > RHO_STEPS {
            t.table(s, Table { headers, rows });
            return Err(CalcError::KeineLoesung(String::from_str("Iterationsgrenze erreicht")));
        }
    }
    let tb = Table { headers, rows };
    proof {
        assert(first_hit(n as int, i as int));
        assert forall|k: int| #[trigger] first_hit(n as int, k) implies k == i by {
            if k < i {
                assert(rho_gcd(n as int, k as nat) == 1);
            } else if k > i {
                assert(rho_gcd(n as int, i as nat) == 1);
            }
        }
        assert(tb.rows_view() =~= Seq::new(i as nat, |j: int| rho_row(n as int, j + 1)));
        lemma_gcd_divides(abs(x - y), n as nat);
    }
    t.table(s, tb);
    if d == n {
        return Err(CalcError::KeineLoesung(String::from_str("nur trivialer Faktor gefunden")));
    }
    t.result_int("Faktor", d);
    t.result_int("Co-Faktor", n / d);
    Ok(t)
}

} // verus!
