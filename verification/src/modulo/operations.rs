//! Modular addition, subtraction, multiplication and exponentiation, each with
//! a trace of the reduction steps.
use vstd::prelude::*;
use vstd::arithmetic::div_mod::*;
use vstd::arithmetic::power::{lemma_pow0, lemma_pow1, lemma_pow_adds, pow as power};
use crate::error::{CalcError, CalcResult};
use crate::math::{
    MOD_LIMIT, abs, inv_error, lemma_mod_unique, mod_pow, mod_pow_defined, rem_euclid, rem_euclid_ok,
    spec_mod_pow,
};
use crate::text::{dec, digit_char, push_char, push_int, push_str, text_int};
use crate::trace::{Table, Trace};

verus! {

/// The Euclidean remainder by `n` equals the one by `|n|`.
proof fn lemma_mod_abs(x: int, n: int)
    requires
        n != 0,
    ensures
        x % n == x % (abs(n) as int),
{
    let m = abs(n) as int;
    lemma_fundamental_div_mod(x, m);
    lemma_mod_bound(x, m);
    if n < 0 {
        assert(x == (-(x / m)) * n + x % m) by (nonlinear_arith)
            requires x == m * (x / m) + x % m, m == -n;
        lemma_mod_unique(x, n, -(x / m), x % m);
    }
}

/// `(x mod n + y mod n) mod n = (x + y) mod n`, for either sign of `n`.
proof fn lemma_add_mod(x: int, y: int, n: int)
    requires
        n != 0,
    ensures
        (x % n + y % n) % n == (x + y) % n,
        (x % n - y % n) % n == (x - y) % n,
        ((x % n) * (y % n)) % n == (x * y) % n,
{
    let m = abs(n) as int;
    lemma_mod_abs(x, n);
    lemma_mod_abs(y, n);
    lemma_mod_abs(x + y, n);
    lemma_mod_abs(x - y, n);
    lemma_mod_abs(x * y, n);
    lemma_mod_abs(x % n + y % n, n);
    lemma_mod_abs(x % n - y % n, n);
    lemma_mod_abs((x % n) * (y % n), n);
    lemma_add_mod_noop(x, y, m);
    lemma_sub_mod_noop(x, y, m);
    lemma_mul_mod_noop(x, y, m);
}

/// Appends "{label} = {v} mod {n} = {r}" pieces: `prefix{x} mod {n} = {r}`.
fn reduction_line(prefix: &str, x: i128, n: i128, r: i128) -> (s: String)
    ensures
        s@ == prefix@ + dec(x as int) + " mod "@ + dec(n as int) + " = "@ + dec(r as int),
{
    let mut s = text_int(prefix, x);
    push_str(&mut s, " mod ");
    push_int(&mut s, n);
    push_str(&mut s, " = ");
    push_int(&mut s, r);
    s
}

/// `(a + b) mod n`, with the reduction of both operands shown.
pub fn add(a: i128, b: i128, n: i128) -> (r: CalcResult<Trace>)
    requires
        rem_euclid_ok(a as int, n as int),
        rem_euclid_ok(b as int, n as int),
        (a as int) % (n as int) + (b as int) % (n as int) <= i128::MAX,
    ensures
        r matches Ok(t) && t.algorithm@ == "Modulare Addition"@ && t.input_list() == seq![
            ("a"@, dec(a as int)),
            ("b"@, dec(b as int)),
            ("n"@, dec(n as int)),
        ] && t.results() == seq![("Summe"@, dec((a + b) % (n as int)))] && t.step_lines(0) == seq![
            "a mod n = "@ + dec(a as int) + " mod "@ + dec(n as int) + " = "@ + dec((a as int) % (n as int)),
            "b mod n = "@ + dec(b as int) + " mod "@ + dec(n as int) + " = "@ + dec((b as int) % (n as int)),
            "(a + b) mod n = ("@ + dec((a as int) % (n as int)) + " + "@ + dec((b as int) % (n as int)) + ") mod "@
                + dec(n as int) + " = "@ + dec((a + b) % (n as int)),
        ] && t.well_formed() && t.step_titles() == seq!["Reduktion und Summe"@] && t.steps@[0].table is None,
{
    let mut t = Trace::new("Modulare Addition");
    t.input_int("a", a);
    t.input_int("b", b);
    t.input_int("n", n);
    let s = t.step("Reduktion und Summe");
    let ar = rem_euclid(a, n);
    let br = rem_euclid(b, n);
    let l1 = reduction_line("a mod n = ", a, n, ar);
    t.line(s, l1.as_str());
    let l2 = reduction_line("b mod n = ", b, n, br);
    t.line(s, l2.as_str());
    let sum = rem_euclid(ar + br, n);
    proof {
        lemma_add_mod(a as int, b as int, n as int);
    }
    let mut l3 = text_int("(a + b) mod n = (", ar);
    push_str(&mut l3, " + ");
    push_int(&mut l3, br);
    push_str(&mut l3, ") mod ");
    push_int(&mut l3, n);
    push_str(&mut l3, " = ");
    push_int(&mut l3, sum);
    t.line(s, l3.as_str());
    t.result_int("Summe", sum);
    assert(t.step_lines(0) =~= seq![l1@, l2@, l3@]);
    assert(t.step_titles() =~= seq!["Reduktion und Summe"@]);
    Ok(t)
}

/// `(a - b) mod n`, with the reduction of both operands shown.
pub fn sub(a: i128, b: i128, n: i128) -> (r: CalcResult<Trace>)
    requires
        rem_euclid_ok(a as int, n as int),
        rem_euclid_ok(b as int, n as int),
        rem_euclid_ok((a as int) % (n as int) - (b as int) % (n as int), n as int),
    ensures
        r matches Ok(t) && t.algorithm@ == "Modulare Subtraktion"@ && t.input_list() == seq![
            ("a"@, dec(a as int)),
            ("b"@, dec(b as int)),
            ("n"@, dec(n as int)),
        ] && t.results() == seq![("Differenz"@, dec((a - b) % (n as int)))] && t.step_lines(0)
            == seq![
            "a mod n = "@ + dec((a as int) % (n as int)),
            "b mod n = "@ + dec((b as int) % (n as int)),
            "(a - b) mod n = "@ + dec((a - b) % (n as int)),
        ] && t.well_formed() && t.step_titles() == seq!["Reduktion und Differenz"@] && t.steps@[0].table is None,
{
    let mut t = Trace::new("Modulare Subtraktion");
    t.input_int("a", a);
    t.input_int("b", b);
    t.input_int("n", n);
    let s = t.step("Reduktion und Differenz");
    let ar = rem_euclid(a, n);
    let br = rem_euclid(b, n);
    let l1 = text_int("a mod n = ", ar);
    t.line(s, l1.as_str());
    let l2 = text_int("b mod n = ", br);
    t.line(s, l2.as_str());
    let diff = rem_euclid(ar - br, n);
    proof {
        lemma_add_mod(a as int, b as int, n as int);
    }
    let l3 = text_int("(a - b) mod n = ", diff);
    t.line(s, l3.as_str());
    t.result_int("Differenz", diff);
    assert(t.step_lines(0) =~= seq![l1@, l2@, l3@]);
    assert(t.step_titles() =~= seq!["Reduktion und Differenz"@]);
    Ok(t)
}

/// `(a * b) mod n`, with the reduction of both operands shown.
pub fn mul(a: i128, b: i128, n: i128) -> (r: CalcResult<Trace>)
    requires
        rem_euclid_ok(a as int, n as int),
        rem_euclid_ok(b as int, n as int),
        ((a as int) % (n as int)) * ((b as int) % (n as int)) <= i128::MAX,
    ensures
        r matches Ok(t) && t.algorithm@ == "Modulare Multiplikation"@ && t.input_list() == seq![
            ("a"@, dec(a as int)),
            ("b"@, dec(b as int)),
            ("n"@, dec(n as int)),
        ] && t.results() == seq![("Produkt"@, dec((a * b) % (n as int)))] && t.step_lines(0)
            == seq![
            "a mod n = "@ + dec((a as int) % (n as int)),
            "b mod n = "@ + dec((b as int) % (n as int)),
            "(a * b) mod n = "@ + dec((a * b) % (n as int)),
        ] && t.well_formed() && t.step_titles() == seq!["Reduktion und Produkt"@] && t.steps@[0].table is None,
{
    let mut t = Trace::new("Modulare Multiplikation");
    t.input_int("a", a);
    t.input_int("b", b);
    t.input_int("n", n);
    let s = t.step("Reduktion und Produkt");
    let ar = rem_euclid(a, n);
    let br = rem_euclid(b, n);
    let l1 = text_int("a mod n = ", ar);
    t.line(s, l1.as_str());
    let l2 = text_int("b mod n = ", br);
    t.line(s, l2.as_str());
    assert(ar * br >= 0) by (nonlinear_arith)
        requires ar >= 0, br >= 0;
    let prod = rem_euclid(ar * br, n);
    proof {
        lemma_add_mod(a as int, b as int, n as int);
    }
    let l3 = text_int("(a * b) mod n = ", prod);
    t.line(s, l3.as_str());
    t.result_int("Produkt", prod);
    assert(t.step_lines(0) =~= seq![l1@, l2@, l3@]);
    assert(t.step_titles() =~= seq!["Reduktion und Produkt"@]);
    Ok(t)
}

/// Binary digits of `n`, most significant first; `[0]` for 0.
pub open spec fn bin_digits(n: nat) -> Seq<int>
    decreases n,
{
    if n < 2 {
        seq![n as int]
    } else {
        bin_digits(n / 2).push((n % 2) as int)
    }
}

/// The binary digits as text (`{:b}`).
pub open spec fn bin_text(n: nat) -> Seq<char> {
    bin_digits(n).map_values(|d: int| digit_char(d))
}

/// The binary text of an integer, with a leading '-' when negative.
pub open spec fn signed_bin_text(e: int) -> Seq<char> {
    if e >= 0 {
        bin_text(e as nat)
    } else {
        "-"@ + bin_text((-e) as nat)
    }
}

/// The value of a sequence of binary digits, most significant first.
pub open spec fn bits_value(s: Seq<int>) -> int
    decreases s.len(),
{
    if s.len() == 0 {
        0
    } else {
        bits_value(s.drop_last()) * 2 + s.last()
    }
}

/// Largest exponent for which the square-and-multiply table is shown.
pub const TABLE_LIMIT: i128 = 1_000_000;

/// Row `i` of the square-and-multiply table for `a^e mod n`, where `p` is the
/// value of the first `i` bits: the accumulator before the step (`a^p mod n`,
/// or 1 at the start), its square `a^(2p) mod n`, and `a^(2p+1) mod n` when
/// bit `i` is set.
pub open spec fn pow_row(a: int, n: int, bits: Seq<int>, i: int) -> Seq<Seq<char>> {
    let p = bits_value(bits.take(i));
    let before = if i == 0 {
        1
    } else {
        power(a, p as nat) % n
    };
    seq![
        dec(i),
        dec(bits[i]),
        dec(before) + "^2 mod n = "@ + dec(power(a, (2 * p) as nat) % n),
        if bits[i] == 1 {
            dec(power(a, (2 * p + 1) as nat) % n)
        } else {
            "-"@
        },
    ]
}

/// The rows of the square-and-multiply table: one per bit of `e` when
/// `0 <= e <= TABLE_LIMIT`, none otherwise.
pub open spec fn pow_rows(a: int, e: int, n: int) -> Seq<Seq<Seq<char>>> {
    if 0 <= e <= TABLE_LIMIT {
        Seq::new(bin_digits(e as nat).len(), |i: int| pow_row(a, n, bin_digits(e as nat), i))
    } else {
        Seq::empty()
    }
}

proof fn lemma_bits_nonneg(s: Seq<int>)
    requires
        forall|i: int| 0 <= i < s.len() ==> 0 <= #[trigger] s[i] <= 1,
    ensures
        bits_value(s) >= 0,
    decreases s.len(),
{
    if s.len() > 0 {
        lemma_bits_nonneg(s.drop_last());
    }
}

proof fn lemma_bin_digits(n: nat)
    ensures
        bin_digits(n).len() >= 1,
        n >= 1 ==> bin_digits(n)[0] == 1,
        forall|i: int| 0 <= i < bin_digits(n).len() ==> 0 <= #[trigger] bin_digits(n)[i] <= 1,
        forall|k: int| 0 <= k <= bin_digits(n).len() ==> bits_value(#[trigger] bin_digits(n).take(k)) >= 0,
    decreases n,
{
    if n >= 2 {
        lemma_bin_digits(n / 2);
        let d = bin_digits(n / 2);
        assert(bin_digits(n) == d.push((n % 2) as int));
        assert(bin_digits(n)[0] == d[0]);
    }
    assert forall|k: int| 0 <= k <= bin_digits(n).len() implies bits_value(
        #[trigger] bin_digits(n).take(k),
    ) >= 0 by {
        lemma_bits_nonneg(bin_digits(n).take(k));
    }
}

fn binary_digits(e: i128) -> (v: Vec<u8>)
    requires
        e >= 0,
    ensures
        v@.len() == bin_digits(e as nat).len(),
        forall|i: int| 0 <= i < v@.len() ==> v@[i] as int == #[trigger] bin_digits(e as nat)[i],
    decreases e,
{
    if e < 2 {
        let mut v: Vec<u8> = Vec::new();
        v.push(e as u8);
        v
    } else {
        let mut v = binary_digits(e / 2);
        v.push((e % 2) as u8);
        proof {
            assert(bin_digits(e as nat) == bin_digits((e / 2) as nat).push((e % 2) as int));
        }
        v
    }
}

/// `{:b}` of a nonnegative integer.
fn bin_string(e: i128) -> (s: String)
    requires
        e >= 0,
    ensures
        s@ == bin_text(e as nat),
{
    let v = binary_digits(e);
    proof {
        lemma_bin_digits(e as nat);
    }
    let mut s = String::new();
    let mut i: usize = 0;
    while i < v.len()
        invariant
            i <= v@.len(),
            v@.len() == bin_digits(e as nat).len(),
            forall|j: int| 0 <= j < v@.len() ==> v@[j] as int == #[trigger] bin_digits(e as nat)[j],
            forall|j: int| 0 <= j < v@.len() ==> 0 <= #[trigger] bin_digits(e as nat)[j] <= 1,
            s@ == bin_text(e as nat).take(i as int),
        decreases v@.len() - i,
    {
        let d = v[i];
        assert(d as int == bin_digits(e as nat)[i as int]);
        let c = (48u8 + d) as char;
        push_char(&mut s, c);
        assert(bin_text(e as nat).take(i + 1) =~= bin_text(e as nat).take(i as int).push(c));
        i += 1;
    }
    assert(bin_text(e as nat).take(i as int) =~= bin_text(e as nat));
    s
}

/// One step of the table: squaring `a^p mod n` gives `a^(2p) mod n`, and
/// multiplying by `a mod n` gives `a^(2p+1) mod n`.
proof fn lemma_square_step(a: int, p: nat, n: int)
    requires
        n != 0,
    ensures
        ((power(a, p) % n) * (power(a, p) % n)) % n == power(a, 2 * p) % n,
        ((power(a, 2 * p) % n) * (a % n)) % n == power(a, 2 * p + 1) % n,
{
    lemma_add_mod(power(a, p), power(a, p), n);
    lemma_pow_adds(a, p, p);
    lemma_add_mod(power(a, 2 * p), a, n);
    lemma_pow_adds(a, 2 * p, 1);
    lemma_pow1(a);
}

/// `a^e mod n` by square-and-multiply, with the binary expansion of `e` and,
/// for `0 <= e <= TABLE_LIMIT`, the table of squarings and multiplications.
pub fn pow(a: i128, e: i128, n: i128) -> (r: CalcResult<Trace>)
    requires
        e > i128::MIN,
        n <= MOD_LIMIT,
        0 <= e <= TABLE_LIMIT ==> n != 0 && -MOD_LIMIT <= n,
        1 <= e <= TABLE_LIMIT ==> rem_euclid_ok(a as int, n as int),
    ensures
        n <= 0 ==> (r matches Err(CalcError::Bereich(s)) && s@ == "Modulus muss > 0 sein"@),
        n > 0 && !mod_pow_defined(a as int, e as int, n as int) ==> (r matches Err(
            CalcError::KeinInverses(s),
        ) && s@ == inv_error(a as int, n as int)),
        mod_pow_defined(a as int, e as int, n as int) ==> (r matches Ok(t) && t.algorithm@
            == "Modulare Exponentiation (Square-and-Multiply)"@ && t.input_list() == seq![
            ("a"@, dec(a as int)),
            ("e"@, dec(e as int)),
            ("n"@, dec(n as int)),
        ] && t.results() == seq![
            ("Potenz"@, dec(spec_mod_pow(a as int, e as int, n as int))),
        ] && t.step_titles() == seq!["Binärdarstellung des Exponenten"@, "Square-and-Multiply"@]
            && t.steps@[0].table is None && t.step_lines(0) == seq![
            "e = "@ + dec(e as int) + " = "@ + signed_bin_text(e as int) + "_2"@,
        ] && t.step_lines(1) == seq![
            "a^e mod n = "@ + dec(spec_mod_pow(a as int, e as int, n as int)),
        ] && t.well_formed() && (t.steps@[1].table matches Some(tb) && tb.header_view() == seq![
            "i"@,
            "bit"@,
            "quadrieren"@,
            "multiplizieren"@,
        ] && tb.rows_view() == pow_rows(a as int, e as int, n as int))),
{
    let mut t = Trace::new("Modulare Exponentiation (Square-and-Multiply)");
    t.input_int("a", a);
    t.input_int("e", e);
    t.input_int("n", n);
    let s1 = t.step("Binärdarstellung des Exponenten");
    let bin = if e >= 0 {
        bin_string(e)
    } else {
        let mut b = String::from_str("-");
        let m = bin_string(-e);
        push_str(&mut b, m.as_str());
        b
    };
    let mut l1 = text_int("e = ", e);
    push_str(&mut l1, " = ");
    push_str(&mut l1, bin.as_str());
    push_str(&mut l1, "_2");
    t.line(s1, l1.as_str());
    let s2 = t.step("Square-and-Multiply");
    let headers: Vec<String> = vec![
        String::from_str("i"),
        String::from_str("bit"),
        String::from_str("quadrieren"),
        String::from_str("multiplizieren"),
    ];
    let mut rows: Vec<Vec<String>> = Vec::new();
    if e >= 0 && e <= TABLE_LIMIT {
        let bits = binary_digits(e);
        let ghost bs = bin_digits(e as nat);
        proof {
            lemma_bin_digits(e as nat);
        }
        let mut acc: i128 = 1;
        let mut i: usize = 0;
        while i < bits.len()
            invariant
                0 <= e <= TABLE_LIMIT,
                n != 0,
                -MOD_LIMIT <= n <= MOD_LIMIT,
                1 <= e ==> rem_euclid_ok(a as int, n as int),
                bs == bin_digits(e as nat),
                bits@.len() == bs.len(),
                forall|j: int| 0 <= j < bs.len() ==> bits@[j] as int == #[trigger] bs[j],
                forall|j: int| 0 <= j < bs.len() ==> 0 <= #[trigger] bs[j] <= 1,
                forall|k: int| 0 <= k <= bs.len() ==> bits_value(#[trigger] bs.take(k)) >= 0,
                e >= 1 ==> bs[0] == 1,
                i <= bits@.len(),
                acc == (if i == 0 {
                    1
                } else {
                    power(a as int, bits_value(bs.take(i as int)) as nat) % (n as int)
                }),
                rows@.len() == i,
                forall|j: int|
                    0 <= j < i ==> (#[trigger] rows@[j])@.map_values(|c: String| c@) == pow_row(
                        a as int,
                        n as int,
                        bs,
                        j,
                    ),
            decreases bits@.len() - i,
        {
            let ghost p = bits_value(bs.take(i as int));
            let bit = bits[i];
            let before = acc;
            proof {
                assert(0 <= acc < MOD_LIMIT) by {
                    if i > 0 {
                        lemma_mod_abs(power(a as int, p as nat), n as int);
                        lemma_mod_bound(power(a as int, p as nat), abs(n as int) as int);
                    }
                }
                lemma_mod_abs(acc as int * acc as int, n as int);
                assert(bs.take(i + 1).drop_last() == bs.take(i as int));
                assert(bits_value(bs.take(i + 1)) == 2 * p + bs[i as int]);
                if i == 0 {
                    lemma_pow0(a as int);
                    assert(p == 0) by {
                        assert(bs.take(0) =~= Seq::<int>::empty());
                    }
                } else {
                    lemma_square_step(a as int, p as nat, n as int);
                }
            }
            proof {
                crate::math::lemma_product_fits(acc as int, acc as int);
            }
            acc = rem_euclid(acc * acc, n);
            let after_sq = acc;
            proof {
                assert(after_sq == power(a as int, (2 * p) as nat) % (n as int)) by {
                    if i == 0 {
                        lemma_pow0(a as int);
                    }
                }
            }
            let mult = if bit == 1 {
                proof {
                    if i == 0 {
                        assert(e >= 1) by {
                            if e == 0 {
                                assert(bs == seq![0int]);
                            }
                        }
                    }
                    lemma_square_step(a as int, p as nat, n as int);
                    lemma_mod_abs(a as int, n as int);
                    lemma_mod_bound(a as int, abs(n as int) as int);
                    lemma_mod_abs(power(a as int, (2 * p) as nat), n as int);
                    lemma_mod_bound(power(a as int, (2 * p) as nat), abs(n as int) as int);
                }
                let ar = rem_euclid(a, n);
                proof {
                    crate::math::lemma_product_fits(acc as int, ar as int);
                }
                assert(acc * ar >= 0) by (nonlinear_arith)
                    requires 0 <= acc, 0 <= ar;
                acc = rem_euclid(acc * ar, n);
                crate::text::int_text(acc)
            } else {
                String::from_str("-")
            };
            let mut sq = crate::text::int_text(before);
            push_str(&mut sq, "^2 mod n = ");
            push_int(&mut sq, after_sq);
            let row: Vec<String> = vec![
                crate::text::int_text(i as i128),
                crate::text::int_text(bit as i128),
                sq,
                mult,
            ];
            proof {
                assert(row@.map_values(|c: String| c@) =~= pow_row(a as int, n as int, bs, i as int));
            }
            rows.push(row);
            i += 1;
        }
        proof {
            assert(rows@.map_values(|r: Vec<String>| r@.map_values(|c: String| c@)) =~= pow_rows(
                a as int,
                e as int,
                n as int,
            ));
        }
    }
    let tb = Table { headers, rows };
    proof {
        assert(tb.header_view() =~= seq!["i"@, "bit"@, "quadrieren"@, "multiplizieren"@]);
        assert(tb.rows_view() =~= pow_rows(a as int, e as int, n as int));
    }
    t.table(s2, tb);
    let result = match mod_pow(a, e, n) {
        Ok(v) => v,
        Err(err) => return Err(err),
    };
    let l2 = text_int("a^e mod n = ", result);
    t.line(s2, l2.as_str());
    t.result_int("Potenz", result);
    assert(t.step_lines(0) =~= seq![l1@]);
    assert(t.step_lines(1) =~= seq![l2@]);
    assert(t.step_titles() =~= seq!["Binärdarstellung des Exponenten"@, "Square-and-Multiply"@]);
    Ok(t)
}

} // verus!
