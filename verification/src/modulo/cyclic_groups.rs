//! Cyclic subgroups of `(Z/pZ)*` and primitive roots modulo a prime.
use vstd::prelude::*;
use vstd::arithmetic::div_mod::*;
use vstd::arithmetic::power::*;
use crate::error::{CalcError, CalcResult};
use crate::math::{
    MOD_LIMIT, TRIAL_LIMIT, abs, gcd, is_prime, lemma_gcd_divides, lemma_phi_prime, least_order, mod_pow,
    no_order, order_mod, spec_gcd, spec_is_prime,
};
use crate::text::{dec, int_text, join_dec, push_int, push_str, text_int};
use crate::trace::{Table, Trace};

verus! {

/// A residue `1 <= g < p` is coprime to the prime `p`.
pub proof fn lemma_coprime_below_prime(g: int, p: int)
    requires
        spec_is_prime(p),
        1 <= g < p,
    ensures
        spec_gcd(abs(g), abs(p)) == 1,
{
    let d = spec_gcd(g as nat, p as nat) as int;
    lemma_gcd_divides(g as nat, p as nat);
    lemma_fundamental_div_mod(g, d);
    lemma_div_pos_is_pos(g, d);
    assert(d <= g) by (nonlinear_arith)
        requires g == d * (g / d) + g % d, g % d == 0, d > 0, g >= 1, g / d >= 0;
    if d >= 2 {
        assert((p % d) != 0);
    }
}

/// The table of the subgroup generated by `g`: row `k` is `(k, g^k mod p)` for
/// `0 <= k < ord`.
pub open spec fn subgroup_rows(g: int, p: int, ord: int) -> Seq<Seq<Seq<char>>> {
    Seq::new(ord as nat, |k: int| seq![dec(k), dec(pow(g, k as nat) % p)])
}

/// Order of `g` in `(Z/pZ)*` for a prime `p`, and the powers `g^0, ..., g^(ord-1)`.
pub fn subgroup(g: i128, p: i128) -> (r: CalcResult<Trace>)
    requires
        spec_is_prime(p as int) ==> g != i128::MIN,
        p <= TRIAL_LIMIT,
        spec_is_prime(p as int) ==> p <= MOD_LIMIT,
    ensures
        !spec_is_prime(p as int) ==> (r matches Err(CalcError::NichtPrim(s)) && s@ == dec(
            p as int,
        )),
        spec_is_prime(p as int) && spec_gcd(abs(g as int), abs(p as int)) != 1 ==> (r matches Err(
            CalcError::Bereich(s),
        ) && s@ == "g muss teilerfremd zu p sein"@),
        spec_is_prime(p as int) && spec_gcd(abs(g as int), abs(p as int)) == 1 && no_order(
            g as int,
            p as int,
            p - 1,
        ) ==> (r matches Err(CalcError::KeineLoesung(s)) && s@ == "Ordnung nicht gefunden"@),
        spec_is_prime(p as int) && spec_gcd(abs(g as int), abs(p as int)) == 1 ==> (forall|
            k: int,
        |
            #![trigger least_order(g as int, p as int, p - 1, k)]
            least_order(g as int, p as int, p - 1, k) ==> (r matches Ok(t) && t.algorithm@
                == "Zyklische Untergruppe in (Z/pZ)*"@ && t.input_list() == seq![
                ("g"@, dec(g as int)),
                ("p"@, dec(p as int)),
            ] && t.results() == seq![("Ordnung"@, dec(k))] && t.step_lines(0) == seq![
                "ord(g) = "@ + dec(k),
            ] && t.well_formed() && t.step_titles() == seq!["Ordnung von g bestimmen"@, "Erzeugte Untergruppe"@]
                && t.step_lines(1).len() == 0 && t.steps@[0].table is None && (t.steps@[1].table matches Some(tb) && tb.header_view()
                == seq!["k"@, "g^k mod p"@] && tb.rows_view() == subgroup_rows(
                g as int,
                p as int,
                k,
            )))),
{
    if !is_prime(p) {
        return Err(CalcError::NichtPrim(int_text(p)));
    }
    if gcd(g, p) != 1 {
        return Err(CalcError::Bereich(String::from_str("g muss teilerfremd zu p sein")));
    }
    let mut t = Trace::new("Zyklische Untergruppe in (Z/pZ)*");
    t.input_int("g", g);
    t.input_int("p", p);

    let s1 = t.step("Ordnung von g bestimmen");
    let res = order_mod(g, p);
    proof {
        let phi = choose|phi: int|
            #[trigger] crate::math::phi_value(p as int, phi) && (match res {
                Ok(k) => least_order(g as int, p as int, phi, k as int),
                Err(e) => no_order(g as int, p as int, phi) && (e matches CalcError::KeineLoesung(
                    s,
                ) && s@ == "Ordnung nicht gefunden"@),
            });
        lemma_phi_prime(p as int, phi);
    }
    let ord = match res {
        Ok(k) => k,
        Err(e) => return Err(e),
    };
    proof {
        // the least order is unique
        assert forall|k: int| #[trigger] least_order(g as int, p as int, p - 1, k) implies k
            == ord by {
            if k < ord {
                assert(!crate::math::order_candidate(g as int, p as int, p - 1, k));
            } else if k > ord {
                assert(!crate::math::order_candidate(g as int, p as int, p - 1, ord as int));
            }
        }
    }
    let l1 = text_int("ord(g) = ", ord);
    t.line(s1, l1.as_str());

    let s2 = t.step("Erzeugte Untergruppe");
    let headers: Vec<String> = vec![String::from_str("k"), String::from_str("g^k mod p")];
    let mut rows: Vec<Vec<String>> = Vec::new();
    let mut k: i128 = 0;
    while k < ord
        invariant
            0 <= k <= ord,
            1 <= ord <= p - 1,
            2 <= p <= MOD_LIMIT,
            rows@.len() == k,
            forall|j: int|
                0 <= j < k ==> (#[trigger] rows@[j])@.map_values(|c: String| c@) == seq![
                    dec(j),
                    dec(pow(g as int, j as nat) % (p as int)),
                ],
        decreases ord - k,
    {
        let v = match mod_pow(g, k, p) {
            Ok(v) => v,
            Err(e) => return Err(e),
        };
        let row: Vec<String> = vec![int_text(k), int_text(v)];
        proof {
            assert(row@.map_values(|c: String| c@) =~= seq![
                dec(k as int),
                dec(pow(g as int, k as nat) % (p as int)),
            ]);
        }
        rows.push(row);
        k += 1;
    }
    let tb = Table { headers, rows };
    proof {
        assert(tb.header_view() =~= seq!["k"@, "g^k mod p"@]);
        assert(tb.rows_view() =~= subgroup_rows(g as int, p as int, ord as int));
    }
    t.table(s2, tb);
    t.result_int("Ordnung", ord);
    assert(t.step_lines(0) =~= seq![l1@]);
    assert(t.step_titles() =~= seq!["Ordnung von g bestimmen"@, "Erzeugte Untergruppe"@]);
    Ok(t)
}

/// `g` is a primitive root modulo the prime `p`: its order is `p - 1`.
pub open spec fn is_primitive_root(g: int, p: int) -> bool {
    least_order(g, p, p - 1, p - 1)
}

/// The primitive roots in `[2, m)`, ascending.
pub open spec fn roots_below(p: int, m: int) -> Seq<int>
    decreases m,
{
    if m <= 2 {
        Seq::empty()
    } else if is_primitive_root(m - 1, p) {
        roots_below(p, m - 1).push(m - 1)
    } else {
        roots_below(p, m - 1)
    }
}

/// Every residue in `[2, m)` has an order modulo `p`.
pub open spec fn all_have_order(p: int, m: int) -> bool {
    forall|g: int| 2 <= g < m ==> !#[trigger] no_order(g, p, p - 1)
}

/// All primitive roots modulo the prime `p`.
pub fn primitive_roots(p: i128) -> (r: CalcResult<Trace>)
    requires
        p <= TRIAL_LIMIT,
        spec_is_prime(p as int) ==> p <= MOD_LIMIT,
    ensures
        !spec_is_prime(p as int) ==> (r matches Err(CalcError::NichtPrim(s)) && s@ == dec(
            p as int,
        )),
        spec_is_prime(p as int) && !all_have_order(p as int, p as int) ==> (r matches Err(
            CalcError::KeineLoesung(s),
        ) && s@ == "Ordnung nicht gefunden"@),
        spec_is_prime(p as int) && all_have_order(p as int, p as int) ==> (r matches Ok(t)
            && t.algorithm@ == "Primitive Wurzeln modulo p"@ && t.input_list() == seq![
            ("p"@, dec(p as int)),
        ] && t.results() == seq![
            ("Primitive Wurzeln"@, join_dec(roots_below(p as int, p as int))),
        ] && t.step_lines(0) == seq!["phi(p) = p - 1 = "@ + dec(p - 1)] && t.well_formed() && t.step_titles() == seq!["Suche nach primitiven Wurzeln"@] && (
        t.steps@[0].table matches Some(tb) && tb.header_view() == seq!["g"@, "ord(g)"@]
            && tb.rows_view() == roots_below(p as int, p as int).map_values(
            |g: int| seq![dec(g), dec(p - 1)],
        ))),
{
    if !is_prime(p) {
        return Err(CalcError::NichtPrim(int_text(p)));
    }
    let mut t = Trace::new("Primitive Wurzeln modulo p");
    t.input_int("p", p);
    let phi = p - 1;
    let s1 = t.step("Suche nach primitiven Wurzeln");
    let l1 = text_int("phi(p) = p - 1 = ", phi);
    t.line(s1, l1.as_str());
    let mut roots: Vec<i128> = Vec::new();
    let mut g: i128 = 2;
    while g < p
        invariant
            2 <= g <= p,
            spec_is_prime(p as int),
            p <= MOD_LIMIT,
            phi == p - 1,
            all_have_order(p as int, g as int),
            roots@.map_values(|x: i128| x as int) == roots_below(p as int, g as int),
            forall|j: int| 0 <= j < roots@.len() ==> 2 <= #[trigger] roots@[j] < g,
        decreases p - g,
    {
        proof {
            lemma_coprime_below_prime(g as int, p as int);
        }
        let res = order_mod(g, p);
        proof {
            let ph = choose|ph: int|
                #[trigger] crate::math::phi_value(p as int, ph) && (match res {
                    Ok(k) => least_order(g as int, p as int, ph, k as int),
                    Err(e) => no_order(g as int, p as int, ph) && (e matches CalcError::KeineLoesung(
                        s,
                    ) && s@ == "Ordnung nicht gefunden"@),
                });
            lemma_phi_prime(p as int, ph);
            if res is Err {
                assert(!all_have_order(p as int, p as int));
            }
        }
        let ord = match res {
            Ok(k) => k,
            Err(e) => return Err(e),
        };
        proof {
            assert(!no_order(g as int, p as int, p - 1)) by {
                assert(crate::math::order_candidate(g as int, p as int, p - 1, ord as int));
            }
            if ord == phi {
                assert(is_primitive_root(g as int, p as int));
            } else {
                assert(!is_primitive_root(g as int, p as int)) by {
                    assert(crate::math::order_candidate(g as int, p as int, p - 1, ord as int));
                    assert(1 <= ord < p - 1);
                }
            }
        }
        let ghost before = roots@;
        if ord == phi {
            roots.push(g);
        }
        proof {
            assert(roots@.map_values(|x: i128| x as int) =~= roots_below(p as int, g + 1));
        }
        g += 1;
    }
    let ghost rs = roots_below(p as int, p as int);
    let headers: Vec<String> = vec![String::from_str("g"), String::from_str("ord(g)")];
    let mut rows: Vec<Vec<String>> = Vec::new();
    let mut joined = String::new();
    let mut i: usize = 0;
    while i < roots.len()
        invariant
            i <= roots@.len(),
            roots@.map_values(|x: i128| x as int) == rs,
            phi == p - 1,
            rows@.len() == i,
            forall|j: int|
                0 <= j < i ==> (#[trigger] rows@[j])@.map_values(|c: String| c@) == seq![
                    dec(rs[j]),
                    dec(p - 1),
                ],
            joined@ == join_dec(rs.take(i as int)),
        decreases roots@.len() - i,
    {
        let x = roots[i];
        let row: Vec<String> = vec![int_text(x), int_text(phi)];
        proof {
            assert(rs[i as int] == x);
            assert(row@.map_values(|c: String| c@) =~= seq![dec(rs[i as int]), dec(p - 1)]);
            assert(rs.take(i + 1).drop_last() =~= rs.take(i as int));
        }
        rows.push(row);
        if i > 0 {
            push_str(&mut joined, ", ");
        } else {
            assert(rs.take(1) =~= seq![rs[0]]);
        }
        push_int(&mut joined, x);
        i += 1;
    }
    proof {
        assert(rs.take(i as int) =~= rs);
    }
    let tb = Table { headers, rows };
    proof {
        assert(tb.header_view() =~= seq!["g"@, "ord(g)"@]);
        assert(tb.rows_view() =~= rs.map_values(|g: int| seq![dec(g), dec(p - 1)]));
    }
    t.table(s1, tb);
    t.result("Primitive Wurzeln", joined.as_str());
    assert(t.step_lines(0) =~= seq![l1@]);
    assert(t.step_titles() =~= seq!["Suche nach primitiven Wurzeln"@]);
    Ok(t)
}

} // verus!
