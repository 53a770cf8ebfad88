//! Additive inverse modulo n.
use vstd::prelude::*;
use vstd::arithmetic::div_mod::*;
use crate::error::{CalcError, CalcResult};
use crate::math::{lemma_mod_unique, rem_euclid};
use crate::text::{dec, text_int};
use crate::trace::Trace;

verus! {

/// `-a mod n` is the additive inverse of `a`: `(a + (-a mod n)) mod n = 0`, and
/// it does not matter whether `a` is reduced first.
pub proof fn lemma_additive_inverse(a: int, n: int)
    requires
        n > 0,
    ensures
        (-(a % n)) % n == (-a) % n,
        (a % n + (-a) % n) % n == 0,
        (a + (-a) % n) % n == 0,
        (-(a % n)) % n == (if a % n == 0 {
            0
        } else {
            n - a % n
        }),
{
    lemma_fundamental_div_mod(a, n);
    assert(-a == n * (-(a / n)) + (-(a % n))) by (nonlinear_arith)
        requires a == n * (a / n) + a % n;
    lemma_mod_multiples_vanish(-(a / n), -(a % n), n);
    lemma_add_mod_noop(a, -a, n);
    lemma_mod_twice(a, n);
    lemma_add_mod_noop(a % n, -a, n);
    lemma_mod_self_0(n);
    lemma_small_mod(0, n as nat);
    lemma_mod_bound(a, n);
    lemma_mod_twice(-a, n);
    lemma_add_mod_noop(a, (-a) % n, n);
    if a % n == 0 {
        lemma_mod_unique(-(a % n), n, 0, 0);
    } else {
        lemma_mod_unique(-(a % n), n, -1, n - a % n);
    }
}

/// `-a mod n` for `n > 0`, with the check `a + (-a) = 0 (mod n)`.
pub fn additive_inverse(a: i128, n: i128) -> (r: CalcResult<Trace>)
    ensures
        n <= 0 ==> (r matches Err(CalcError::Bereich(s)) && s@ == "n muss > 0 sein"@),
        n > 0 ==> (r matches Ok(t) && t.algorithm@ == "Additives Inverses modulo n"@
            && t.input_list() == seq![("a"@, dec(a as int)), ("n"@, dec(n as int))]
            && t.results() == seq![("Additives Inverses"@, dec((-a) % (n as int)))]
            && t.step_lines(0) == seq![
            "a mod n = "@ + dec((a as int) % (n as int)),
            "-a mod n = (n - a) mod n = "@ + dec((-a) % (n as int)),
            "Prüfung: a + (-a) mod n = "@ + dec(0),
        ] && t.well_formed() && t.step_titles() == seq!["Berechnung von -a mod n"@] && t.steps@[0].table is None),
{
    if n <= 0 {
        return Err(CalcError::Bereich(String::from_str("n muss > 0 sein")));
    }
    let mut t = Trace::new("Additives Inverses modulo n");
    t.input_int("a", a);
    t.input_int("n", n);
    let s = t.step("Berechnung von -a mod n");
    let ar = rem_euclid(a, n);
    let l1 = text_int("a mod n = ", ar);
    t.line(s, l1.as_str());
    let inv = rem_euclid(-ar, n);
    proof {
        lemma_additive_inverse(a as int, n as int);
    }
    let l2 = text_int("-a mod n = (n - a) mod n = ", inv);
    t.line(s, l2.as_str());
    let probe = rem_euclid(ar + inv, n);
    let l3 = text_int("Prüfung: a + (-a) mod n = ", probe);
    t.line(s, l3.as_str());
    t.result_int("Additives Inverses", inv);
    assert(t.step_lines(0) =~= seq![l1@, l2@, l3@]);
    assert(t.step_titles() =~= seq!["Berechnung von -a mod n"@]);
    Ok(t)
}

} // verus!
