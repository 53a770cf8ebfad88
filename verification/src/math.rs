//! Number theory: Euclidean remainder, gcd, extended Euclid, modular inverse,
//! modular exponentiation, integer square root, primality, factorization,
//! Euler's phi and multiplicative order.
use vstd::prelude::*;
use vstd::arithmetic::div_mod::*;
use vstd::arithmetic::mul::*;
use vstd::arithmetic::power::*;
use vstd::arithmetic::power2::*;
use crate::error::{CalcError, CalcResult};
use crate::text::{Piece, dec, pieces_view, render};

verus! {

/// Largest modulus `m` with `(m - 1)² <= i128::MAX`: the product of two values
/// reduced modulo `m` stays in `i128`.
pub const MOD_LIMIT: i128 = 13043817825332782213;

/// Products of values below `MOD_LIMIT` in absolute value stay in `i128`, with
/// room to add or subtract one more such value.
pub proof fn lemma_product_fits(x: int, y: int)
    requires
        -MOD_LIMIT < x < MOD_LIMIT,
        -MOD_LIMIT < y < MOD_LIMIT,
    ensures
        i128::MIN + 0x7000_0000_0000_0000 <= x * y <= i128::MAX - 0x7000_0000_0000_0000,
        0 <= x && 0 <= y ==> 0 <= x * y,
{
    let ax = if x < 0 { -x } else { x };
    let ay = if y < 0 { -y } else { y };
    assert(ax * ay <= (MOD_LIMIT - 1) * (MOD_LIMIT - 1)) by (nonlinear_arith)
        requires 0 <= ax <= MOD_LIMIT - 1, 0 <= ay <= MOD_LIMIT - 1;
    assert(0 <= ax * ay) by (nonlinear_arith) requires 0 <= ax, 0 <= ay;
    assert(x * y == ax * ay || x * y == -(ax * ay)) by (nonlinear_arith)
        requires ax == x || ax == -x, ay == y || ay == -y;
    assert(0 <= x && 0 <= y ==> 0 <= x * y) by (nonlinear_arith);
}

pub open spec fn abs(x: int) -> nat {
    if x < 0 {
        (-x) as nat
    } else {
        x as nat
    }
}

/// Quotient of Rust's truncating division (rounds toward zero).
pub open spec fn tdiv(a: int, b: int) -> int {
    if (a >= 0) == (b > 0) {
        (abs(a) / abs(b)) as int
    } else {
        -((abs(a) / abs(b)) as int)
    }
}

/// Remainder of Rust's truncating division (sign of the dividend).
pub open spec fn trem(a: int, b: int) -> int {
    if a >= 0 {
        (abs(a) % abs(b)) as int
    } else {
        -((abs(a) % abs(b)) as int)
    }
}

/// Inputs on which `rem_euclid` runs without overflow.
pub open spec fn rem_euclid_ok(a: int, n: int) -> bool {
    &&& n != 0
    &&& !(a == i128::MIN && n == -1)
    &&& !(n == i128::MIN && i128::MIN < a < 0)
}

/// Greatest common divisor by Euclid's recursion.
pub open spec fn spec_gcd(a: nat, b: nat) -> nat
    decreases b,
{
    if b == 0 {
        a
    } else {
        spec_gcd(b, a % b)
    }
}

pub proof fn lemma_trunc(a: int, b: int)
    requires
        b != 0,
    ensures
        a == b * tdiv(a, b) + trem(a, b),
        abs(trem(a, b)) < abs(b),
        a >= 0 ==> trem(a, b) >= 0,
        a < 0 ==> trem(a, b) <= 0,
        abs(a) == abs(b) * abs(tdiv(a, b)) + abs(trem(a, b)),
        trem(a, b) < 0 ==> a % b == trem(a, b) + abs(b),
        trem(a, b) >= 0 ==> a % b == trem(a, b),
        trem(a, b) == (if a >= 0 { a % b } else { -((-a) % b) }),
        a >= 0 && b > 0 ==> tdiv(a, b) == a / b && trem(a, b) == a % b,
{
    let aa = abs(a) as int;
    let bb = abs(b) as int;
    lemma_fundamental_div_mod(aa, bb);
    lemma_mod_bound(aa, bb);
    lemma_div_pos_is_pos(aa, bb);
    let q = aa / bb;
    let r = aa % bb;
    assert(aa == bb * q + r);
    // Euclidean remainder of a nonnegative number by b equals that by |b|
    if b < 0 {
        assert(aa == (-q) * b + r) by (nonlinear_arith)
            requires aa == bb * q + r, bb == -b;
        lemma_mod_unique(aa, b, -q, r);
    } else {
        lemma_mod_unique(aa, b, q, r);
    }
    assert(aa % b == r);
    if a >= 0 {
        assert(a == b * tdiv(a, b) + trem(a, b)) by (nonlinear_arith)
            requires
                a == aa,
                aa == bb * q + r,
                bb == (if b < 0 { -b } else { b }),
                tdiv(a, b) == (if b > 0 { q } else { -q }),
                trem(a, b) == r;
    } else {
        assert(a == b * tdiv(a, b) + trem(a, b)) by (nonlinear_arith)
            requires
                a == -aa,
                aa == bb * q + r,
                bb == (if b < 0 { -b } else { b }),
                tdiv(a, b) == (if b > 0 { -q } else { q }),
                trem(a, b) == -r;
        if r > 0 {
            if b > 0 {
                assert(a == (-q - 1) * b + (b - r)) by (nonlinear_arith)
                    requires a == -aa, aa == bb * q + r, bb == b;
                lemma_mod_unique(a, b, -q - 1, b - r);
            } else {
                assert(a == (q + 1) * b + (-b - r)) by (nonlinear_arith)
                    requires a == -aa, aa == bb * q + r, bb == -b;
                lemma_mod_unique(a, b, q + 1, -b - r);
            }
        } else {
            if b > 0 {
                assert(a == (-q) * b + 0) by (nonlinear_arith)
                    requires a == -aa, aa == bb * q, bb == b;
                lemma_mod_unique(a, b, -q, 0);
            } else {
                assert(a == q * b + 0) by (nonlinear_arith)
                    requires a == -aa, aa == bb * q, bb == -b;
                lemma_mod_unique(a, b, q, 0);
            }
        }
    }
}

/// The Euclidean remainder is the unique `r` in `[0, |d|)` with `x = q*d + r`.
pub proof fn lemma_mod_unique(x: int, d: int, q: int, r: int)
    requires
        d != 0,
        0 <= r < abs(d),
        x == q * d + r,
    ensures
        x % d == r,
        x / d == q,
{
    lemma_fundamental_div_mod(x, d);
    lemma_mod_bound_any(x, d);
    let q2 = x / d;
    let r2 = x % d;
    assert(q2 == q) by (nonlinear_arith)
        requires
            x == d * q2 + r2,
            x == q * d + r,
            0 <= r < abs(d),
            0 <= r2 < abs(d),
            d != 0,
            abs(d) == if d < 0 { -d } else { d };
    assert(r2 == r) by (nonlinear_arith)
        requires x == d * q2 + r2, x == q * d + r, q2 == q;
}

proof fn lemma_mod_bound_any(c: int, b: int)
    requires
        b != 0,
    ensures
        0 <= c % b < abs(b),
{
    if b > 0 {
        lemma_mod_bound(c, b);
    } else {
        lemma_fundamental_div_mod(c, b);
    }
}

/// `a mod n` in `[0, |n|)` (Euclidean remainder).
pub fn rem_euclid(a: i128, n: i128) -> (r: i128)
    requires
        rem_euclid_ok(a as int, n as int),
    ensures
        r as int == (a as int) % (n as int),
        0 <= r < abs(n as int),
{
    proof {
        lemma_trunc(a as int, n as int);
    }
    let r = a % n;
    if r < 0 {
        let m = if n < 0 { -n } else { n };
        r + m
    } else {
        r
    }
}

pub proof fn lemma_gcd_zero(a: nat, b: nat)
    ensures
        spec_gcd(a, b) == 0 <==> a == 0 && b == 0,
    decreases b,
{
    if b != 0 {
        lemma_gcd_zero(b, a % b);
    }
}

/// The gcd divides both arguments.
pub proof fn lemma_gcd_divides(a: nat, b: nat)
    requires
        a > 0 || b > 0,
    ensures
        spec_gcd(a, b) > 0,
        a % spec_gcd(a, b) == 0,
        b % spec_gcd(a, b) == 0,
    decreases b,
{
    lemma_gcd_zero(a, b);
    if b > 0 {
        let g = spec_gcd(a, b);
        lemma_gcd_divides(b, a % b);
        lemma_fundamental_div_mod(a as int, b as int);
        // a = b * (a / b) + a % b, and g divides b and a % b
        lemma_mod_sum_multiple(b as int, (a / b) as int, (a % b) as int, g as int);
    }
}

/// If g divides x and y then g divides x * q + y.
proof fn lemma_mod_sum_multiple(x: int, q: int, y: int, g: int)
    requires
        g > 0,
        x % g == 0,
        y % g == 0,
    ensures
        (x * q + y) % g == 0,
{
    lemma_mul_mod_noop_left(x, q, g);
    lemma_add_mod_noop(x * q, y, g);
    assert((x % g) * q == 0) by (nonlinear_arith)
        requires x % g == 0;
    lemma_mod_self_0(g);
    lemma_small_mod(0, g as nat);
}

/// Every common divisor of both arguments divides the gcd.
pub proof fn lemma_common_divisor_divides_gcd(a: nat, b: nat, d: int)
    requires
        d > 0,
        (a as int) % d == 0,
        (b as int) % d == 0,
    ensures
        (spec_gcd(a, b) as int) % d == 0,
    decreases b,
{
    if b > 0 {
        lemma_fundamental_div_mod(a as int, b as int);
        // a % b = a - b * (a / b)
        assert((a % b) as int == (b as int) * (-((a / b) as int)) + (a as int)) by (nonlinear_arith)
            requires a as int == (b as int) * ((a / b) as int) + ((a % b) as int);
        lemma_mod_sum_multiple(b as int, -((a / b) as int), a as int, d);
        lemma_common_divisor_divides_gcd(b, a % b, d);
    }
}

/// Greatest common divisor of `|a|` and `|b|`.
pub fn gcd(a: i128, b: i128) -> (g: i128)
    requires
        a != i128::MIN,
        b != i128::MIN,
    ensures
        g as int == spec_gcd(abs(a as int), abs(b as int)),
{
    let mut x: i128 = if a < 0 { -a } else { a };
    let mut y: i128 = if b < 0 { -b } else { b };
    while y != 0
        invariant
            x >= 0,
            y >= 0,
            spec_gcd(x as nat, y as nat) == spec_gcd(abs(a as int), abs(b as int)),
        decreases y,
    {
        let t = x % y;
        x = y;
        y = t;
    }
    x
}

/// Extended Euclid `(g, x, y)` following the recursion on truncating division.
pub open spec fn spec_ext_gcd(a: int, b: int) -> (int, int, int)
    decreases abs(b),
{
    if b == 0 {
        (a, 1, 0)
    } else {
        proof {
            lemma_trunc(a, b);
        }
        let r = spec_ext_gcd(b, trem(a, b));
        (r.0, r.2, r.1 - tdiv(a, b) * r.2)
    }
}

/// Bezout's identity, the gcd, and coefficient bounds for the extended Euclid recursion.
pub proof fn lemma_ext_gcd(a: int, b: int)
    ensures
        ({
            let (g, x, y) = spec_ext_gcd(a, b);
            &&& a * x + b * y == g
            &&& abs(g) == spec_gcd(abs(a), abs(b))
            &&& (a >= 0 && b >= 0 ==> g >= 0)
            &&& (b == 0 ==> x == 1 && y == 0)
            &&& (b != 0 && trem(a, b) == 0 ==> x == 0 && y == 1)
            &&& (a != 0 && b != 0 ==> abs(x) * abs(g) <= abs(b) && abs(y) * abs(g) <= abs(a))
        }),
    decreases abs(b),
{
    if b != 0 {
        lemma_trunc(a, b);
        let q = tdiv(a, b);
        let r = trem(a, b);
        lemma_ext_gcd(b, r);
        let (g, x1, y1) = spec_ext_gcd(b, r);
        let (g2, x, y) = spec_ext_gcd(a, b);
        assert(g2 == g && x == y1 && y == x1 - q * y1);
        assert(a * x + b * y == g) by (nonlinear_arith)
            requires
                b * x1 + r * y1 == g,
                a == b * q + r,
                x == y1,
                y == x1 - q * y1;
        // gcd(|a|, |b|) = gcd(|b|, |a| % |b|) and |r| = |a| % |b|
        assert(abs(r) == abs(a) % abs(b));
        if r == 0 {
            lemma_ext_gcd_zero_left(b);
            assert(q * 0 == 0);
            assert(x == 0 && y == 1);
            if a != 0 {
                assert(abs(g) == abs(b));
                assert(abs(q) >= 1);
                assert(abs(y) * abs(g) <= abs(a)) by (nonlinear_arith)
                    requires abs(y) == 1, abs(g) == abs(b), abs(a) == abs(b) * abs(q) + 0, abs(q) >= 1;
                assert(abs(x) * abs(g) <= abs(b)) by (nonlinear_arith)
                    requires x == 0;
            }
        } else if a != 0 {
            // induction hypothesis on (b, r), both nonzero
            assert(abs(y) * abs(g) <= abs(a)) by (nonlinear_arith)
                requires
                    abs(x1) * abs(g) <= abs(r),
                    abs(y1) * abs(g) <= abs(b),
                    y == x1 - q * y1,
                    abs(a) == abs(b) * abs(q) + abs(r);
        }
        if a >= 0 && b >= 0 {
            assert(r >= 0);
        }
    }
}

proof fn lemma_ext_gcd_zero_left(b: int)
    requires
        b != 0,
    ensures
        spec_ext_gcd(b, 0) == (b, 1int, 0int),
{
}

/// The step of extended Euclid with dividend `i128::MIN` and divisor `b != 0`
/// stays in `i128`: the quotient exists and the new coefficient and the product
/// that forms it fit.
pub open spec fn min_step_ok(b: int) -> bool {
    let a = i128::MIN as int;
    let (g, x1, y1) = spec_ext_gcd(b, trem(a, b));
    &&& b != -1
    &&& i128::MIN <= tdiv(a, b) * y1 <= i128::MAX
    &&& i128::MIN <= x1 - tdiv(a, b) * y1 <= i128::MAX
}

/// Extended Euclid on `a` and `b` computes only values in `i128`. Only a step
/// whose dividend is `i128::MIN` can leave it; such a step comes first, or second
/// after a step with divisor `i128::MIN`.
pub open spec fn ext_gcd_ok(a: int, b: int) -> bool {
    if b == 0 {
        true
    } else if a == i128::MIN {
        min_step_ok(b)
    } else if b == i128::MIN {
        a == 0 || min_step_ok(a)
    } else {
        true
    }
}

/// Rust's truncating quotient and remainder of `a` by `b`.
fn trunc_div_rem(a: i128, b: i128) -> (qr: (i128, i128))
    requires
        b != 0,
        !(a == i128::MIN && b == -1),
    ensures
        qr.0 == tdiv(a as int, b as int),
        qr.1 == trem(a as int, b as int),
{
    if b == i128::MIN {
        if a == i128::MIN {
            (1, 0)
        } else {
            proof {
                let aa = abs(a as int) as int;
                let ab = abs(b as int) as int;
                assert(aa < ab);
                lemma_fundamental_div_mod_converse(aa, ab, 0, aa);
            }
            (0, a)
        }
    } else if a == i128::MIN {
        let ub: i128 = if b < 0 { -b } else { b };
        let rest: i128 = -(a + ub);
        let k: i128 = rest / ub;
        let s: i128 = rest % ub;
        proof {
            lemma_fundamental_div_mod(rest as int, ub as int);
            assert(abs(a as int) == rest + ub);
            assert((k + 1) * ub == ub * k + ub) by (nonlinear_arith);
            lemma_fundamental_div_mod_converse(abs(a as int) as int, ub as int, k + 1, s as int);
            if b < 0 {
                assert(ub >= 2);
                assert(k <= rest / 2) by (nonlinear_arith)
                    requires k == rest / ub, ub >= 2, rest >= 0;
            }
        }
        let q: i128 = if b > 0 { -k - 1 } else { k + 1 };
        (q, -s)
    } else {
        let ua: i128 = if a < 0 { -a } else { a };
        let ub: i128 = if b < 0 { -b } else { b };
        let q: i128 = if (a >= 0) == (b > 0) { ua / ub } else { -(ua / ub) };
        let r: i128 = if a >= 0 { ua % ub } else { -(ua % ub) };
        (q, r)
    }
}

/// Extended Euclid: `(g, x, y)` with `a*x + b*y = g`.
pub fn ext_gcd(a: i128, b: i128) -> (res: (i128, i128, i128))
    requires
        ext_gcd_ok(a as int, b as int),
    ensures
        (res.0 as int, res.1 as int, res.2 as int) == spec_ext_gcd(a as int, b as int),
        a * res.1 + b * res.2 == res.0,
        abs(res.0 as int) == spec_gcd(abs(a as int), abs(b as int)),
    decreases abs(b as int),
{
    proof {
        lemma_ext_gcd(a as int, b as int);
    }
    if b == 0 {
        (a, 1, 0)
    } else {
        proof {
            lemma_trunc(a as int, b as int);
            lemma_ext_gcd(b as int, trem(a as int, b as int));
            lemma_gcd_zero(abs(b as int), abs(trem(a as int, b as int)));
        }
        let (q, r) = trunc_div_rem(a, b);
        let (g, x1, y1) = ext_gcd(b, r);
        proof {
            assert(spec_ext_gcd(a as int, b as int) == (g as int, y1 as int, x1 - tdiv(a as int, b as int) * y1));
            if a != i128::MIN {
                // |q * y1| <= |a|: y1 is 0 when r == 0, and |y1| * |g| <= |b| with |g| >= 1 otherwise
                if r == 0 {
                    lemma_ext_gcd_zero_left(b as int);
                    assert(y1 == 0);
                } else {
                    assert(abs(g as int) >= 1);
                    assert(abs(y1 as int) <= abs(b as int)) by (nonlinear_arith)
                        requires abs(y1 as int) * abs(g as int) <= abs(b as int), abs(g as int) >= 1;
                }
                assert(abs(q as int * y1 as int) <= abs(a as int)) by (nonlinear_arith)
                    requires
                        abs(y1 as int) <= abs(b as int),
                        abs(a as int) == abs(b as int) * abs(q as int) + abs(r as int);
                let y = x1 - q * y1;
                if a != 0 {
                    lemma_gcd_zero(abs(a as int), abs(b as int));
                    assert(abs(y) <= abs(a as int)) by (nonlinear_arith)
                        requires abs(y) * abs(g as int) <= abs(a as int), abs(g as int) >= 1;
                } else {
                    assert(r == 0);
                    assert(y1 == 0);
                    assert(y == x1);
                }
            }
        }
        let qy = q * y1;
        (g, y1, x1 - qy)
    }
}

/// `a` has an inverse modulo `n`: `n > 0` and `gcd(a mod n, n) = 1`.
pub open spec fn coprime_mod(a: int, n: int) -> bool {
    n > 0 && spec_gcd((a % n) as nat, n as nat) == 1
}

/// The inverse of `a` modulo `n` that extended Euclid yields, reduced into `[0, n)`.
pub open spec fn inv_mod(a: int, n: int) -> int {
    spec_ext_gcd(a % n, n).1 % n
}

/// The inverse is in `[0, n)` and multiplies `a` to 1 modulo `n`.
pub proof fn lemma_inv_mod(a: int, n: int)
    requires
        coprime_mod(a, n),
    ensures
        0 <= inv_mod(a, n) < n,
        (a * inv_mod(a, n)) % n == 1int % n,
{
    let a1 = a % n;
    lemma_mod_bound(a, n);
    lemma_ext_gcd(a1, n);
    let (g, x, y) = spec_ext_gcd(a1, n);
    assert(g == 1);
    let v = x % n;
    lemma_mod_bound(x, n);
    // a1 * x = 1 - n * y
    assert(a1 * x == 1 + n * (-y)) by (nonlinear_arith)
        requires a1 * x + n * y == 1;
    lemma_mod_multiples_vanish(-y, 1, n);
    lemma_mul_is_commutative(n, -y);
    lemma_mul_mod_noop_right(a1, x, n);
    lemma_mul_mod_noop_left(a, v, n);
    assert((a * v) % n == 1int % n);
}

/// The inverse modulo `n` is unique in `[0, n)`.
pub proof fn lemma_inv_unique(a: int, n: int, w: int)
    requires
        coprime_mod(a, n),
        0 <= w < n,
        (a * w) % n == 1int % n,
    ensures
        w == inv_mod(a, n),
{
    let v = inv_mod(a, n);
    lemma_inv_mod(a, n);
    // w = w * (a * v) = v * (a * w) = v  (mod n)
    lemma_mul_mod_noop_right(w, a * v, n);
    lemma_mul_mod_noop_right(v, a * w, n);
    assert(w * (a * v) == v * (a * w)) by (nonlinear_arith);
    lemma_mul_mod_noop_right(w, 1, n);
    lemma_mul_mod_noop_right(v, 1, n);
    lemma_small_mod(w as nat, n as nat);
    lemma_small_mod(v as nat, n as nat);
}

/// The message when `a` has no inverse modulo `n`: "gcd(a, n) = g ≠ 1".
pub open spec fn inv_error(a: int, n: int) -> Seq<char> {
    "gcd("@ + dec(a) + ", "@ + dec(n) + ") = "@ + dec(spec_gcd((a % n) as nat, n as nat) as int)
        + " ≠ 1"@
}

/// Multiplicative inverse of `a` modulo `n`.
pub fn mod_inv(a: i128, n: i128) -> (r: CalcResult<i128>)
    ensures
        n <= 0 ==> (r matches Err(CalcError::Bereich(s)) && s@ == "Modulus muss > 0 sein"@),
        n > 0 && !coprime_mod(a as int, n as int) ==> (r matches Err(CalcError::KeinInverses(s))
            && s@ == inv_error(a as int, n as int)),
        coprime_mod(a as int, n as int) ==> (r matches Ok(v) && v == inv_mod(a as int, n as int)),
        r matches Ok(v) ==> 0 <= v < n && (a * v) % (n as int) == 1int % (n as int),
{
    if n <= 0 {
        return Err(CalcError::Bereich(String::from_str("Modulus muss > 0 sein")));
    }
    let a1 = rem_euclid(a, n);
    let (g, x, _) = ext_gcd(a1, n);
    proof {
        lemma_ext_gcd(a1 as int, n as int);
    }
    if g != 1 {
        let msg = render(
            &[
                Piece::Text("gcd("),
                Piece::Num(a),
                Piece::Text(", "),
                Piece::Num(n),
                Piece::Text(") = "),
                Piece::Num(g),
                Piece::Text(" ≠ 1"),
            ],
        );
        proof {
            reveal_with_fuel(pieces_view, 8);
            assert(g as int == spec_gcd((a % n) as nat, n as nat));
            assert(msg@ =~= inv_error(a as int, n as int));
        }
        return Err(CalcError::KeinInverses(msg));
    }
    proof {
        lemma_inv_mod(a as int, n as int);
    }
    Ok(rem_euclid(x, n))
}

/// Value of `base^exp mod m` for `m > 0`; a negative exponent raises the inverse.
pub open spec fn spec_mod_pow(base: int, exp: int, m: int) -> int {
    if exp >= 0 {
        pow(base, exp as nat) % m
    } else {
        pow(inv_mod(base, m), (-exp) as nat) % m
    }
}

/// `mod_pow` succeeds: positive modulus, and an inverse when the exponent is negative.
pub open spec fn mod_pow_defined(base: int, exp: int, m: int) -> bool {
    m > 0 && (exp >= 0 || coprime_mod(base, m))
}

proof fn lemma_pow_step(r: int, b: int, e: nat, m: int)
    requires
        m > 0,
        e > 0,
    ensures
        e % 2 == 1 && e / 2 > 0 ==> ((r * b) % m * pow((b * b) % m, e / 2)) % m == (r * pow(b, e)) % m,
        e % 2 == 1 && e / 2 == 0 ==> ((r * b) % m * pow(b, e / 2)) % m == (r * pow(b, e)) % m,
        e % 2 == 0 ==> (r * pow((b * b) % m, e / 2)) % m == (r * pow(b, e)) % m,
{
    let k = e / 2;
    lemma_pow_multiplies(b, 2, k);
    lemma_pow_adds(b, 1, 1);
    lemma_pow1(b);
    assert(pow(b, 2) == b * b);
    assert(pow(b * b, k) == pow(b, 2 * k));
    lemma_pow_mod_noop(b * b, k, m);
    if e % 2 == 1 {
        lemma_pow_adds(b, 2 * k, 1);
        assert(e == 2 * k + 1);
        assert(pow(b, e) == pow(b * b, k) * b);
        if k > 0 {
            let p = pow((b * b) % m, k);
            let q = pow(b * b, k);
            lemma_mul_mod_noop_left(r * b, p, m);
            lemma_mul_mod_noop_right(r * b, p, m);
            lemma_mul_mod_noop_right(r * b, q, m);
            assert((r * b) * q == r * pow(b, e)) by (nonlinear_arith)
                requires pow(b, e) == q * b;
        } else {
            lemma_pow0(b);
            lemma_pow1(b);
            assert(e == 1);
            lemma_mod_twice(r * b, m);
        }
    } else {
        assert(e == 2 * k);
        let p = pow((b * b) % m, k);
        let q = pow(b * b, k);
        lemma_mul_mod_noop_right(r, p, m);
        lemma_mul_mod_noop_right(r, q, m);
    }
}

/// Modular exponentiation `base^exp mod modulus` by square-and-multiply.
pub fn mod_pow(base: i128, exp: i128, modulus: i128) -> (r: CalcResult<i128>)
    requires
        modulus > 1 ==> modulus <= MOD_LIMIT,
        exp > i128::MIN,
    ensures
        modulus <= 0 ==> (r matches Err(CalcError::Bereich(s)) && s@ == "Modulus muss > 0 sein"@),
        modulus > 0 && exp < 0 && !coprime_mod(base as int, modulus as int) ==> (r matches Err(
            CalcError::KeinInverses(s),
        ) && s@ == inv_error(base as int, modulus as int)),
        mod_pow_defined(base as int, exp as int, modulus as int) ==> (r matches Ok(v) && v
            == spec_mod_pow(base as int, exp as int, modulus as int)),
        r matches Ok(v) ==> 0 <= v < modulus,
    decreases
            if exp < 0 {
                1int
            } else {
                0int
            },
{
    if modulus <= 0 {
        return Err(CalcError::Bereich(String::from_str("Modulus muss > 0 sein")));
    }
    if exp < 0 {
        let inv = match mod_inv(base, modulus) {
            Ok(v) => v,
            Err(e) => return Err(e),
        };
        return mod_pow(inv, -exp, modulus);
    }
    if modulus == 1 {
        return Ok(0);
    }
    let mut result: i128 = 1;
    let mut b = rem_euclid(base, modulus);
    let mut e = exp;
    proof {
        lemma_pow_mod_noop(base as int, exp as nat, modulus as int);
        lemma_small_mod(1, modulus as nat);
    }
    while e > 0
        invariant
            1 < modulus <= MOD_LIMIT,
            0 <= result < modulus,
            0 <= b < modulus,
            e >= 0,
            (result * pow(b as int, e as nat)) % (modulus as int) == pow(base as int, exp as nat)
                % (modulus as int),
        decreases e,
    {
        proof {
            lemma_pow_step(result as int, b as int, e as nat, modulus as int);
        }
        if e % 2 == 1 {
            proof {
                lemma_product_fits(result as int, b as int);
            }
            result = (result * b) % modulus;
        }
        e = e / 2;
        if e > 0 {
            proof {
                lemma_product_fits(b as int, b as int);
            }
            b = (b * b) % modulus;
        }
    }
    proof {
        lemma_pow0(b as int);
        lemma_small_mod(result as nat, modulus as nat);
    }
    Ok(result)
}

/// Largest argument of the trial-division routines, so that `i * i` stays in `i128`.
pub const TRIAL_LIMIT: i128 = 0x4000_0000_0000_0000_0000_0000_0000_0000;

/// `r` is the integer square root of `n >= 0`.
pub open spec fn is_isqrt(n: int, r: int) -> bool {
    0 <= r && r * r <= n < (r + 1) * (r + 1)
}

proof fn lemma_newton_step(n: int, x: int)
    requires
        1 <= x,
        n >= 1,
    ensures
        ({
            let y = (x + n / x) / 2;
            &&& (y + 1) * (y + 1) > n
            &&& (x * x > n ==> y < x)
            &&& (x <= n ==> x + n / x <= n + 1)
        }),
{
    let q = n / x;
    let y = (x + q) / 2;
    lemma_fundamental_div_mod(n, x);
    lemma_mod_bound(n, x);
    assert(x * q <= n < x * (q + 1)) by (nonlinear_arith)
        requires n == x * q + n % x, 0 <= n % x < x;
    assert(x + q <= 2 * y + 1);
    assert((y + 1) * (y + 1) > n) by (nonlinear_arith)
        requires x + q <= 2 * y + 1, n < x * (q + 1), x >= 1;
    if x * x > n {
        assert(q < x) by (nonlinear_arith)
            requires x * q <= n, n < x * x, x >= 1;
    }
    if x <= n {
        assert(x + q <= n + 1) by (nonlinear_arith)
            requires x * q <= n, 1 <= x <= n;
    }
}

/// Integer square root `floor(sqrt(n))` by Newton's iteration; 0 for negative `n`.
pub fn isqrt(n: i128) -> (r: i128)
    requires
        n < i128::MAX,
    ensures
        n < 0 ==> r == 0,
        n >= 0 ==> is_isqrt(n as int, r as int),
{
    if n < 0 {
        return 0;
    }
    if n < 2 {
        assert(n * n <= n < (n + 1) * (n + 1)) by (nonlinear_arith) requires 0 <= n < 2;
        return n;
    }
    let mut x = n;
    let mut y = (x + 1) / 2;
    proof {
        assert(n / n == 1) by (nonlinear_arith) requires n >= 2;
        assert((n + 1) * (n + 1) > n) by (nonlinear_arith) requires n >= 2;
    }
    while y < x
        invariant
            2 <= n < i128::MAX,
            1 <= x <= n,
            y == (x + n / x) / 2,
            (x + 1) * (x + 1) > n,
        decreases x,
    {
        proof {
            lemma_newton_step(n as int, x as int);
            lemma_div_pos_is_pos(n as int, x as int);
        }
        x = y;
        proof {
            assert(x >= 1) by (nonlinear_arith)
                requires (x + 1) * (x + 1) > n, n >= 2, x >= 0;
            lemma_newton_step(n as int, x as int);
        }
        y = (x + n / x) / 2;
    }
    proof {
        lemma_newton_step(n as int, x as int);
    }
    x
}

/// `n` is prime: at least 2 and no divisor strictly between 1 and `n`.
pub open spec fn spec_is_prime(n: int) -> bool {
    n >= 2 && forall|d: int| 2 <= d < n ==> #[trigger] (n % d) != 0
}

/// A divisor of an odd number is odd.
proof fn lemma_even_divisor(n: int, d: int)
    requires
        d >= 2,
        d % 2 == 0,
        n % d == 0,
    ensures
        n % 2 == 0,
{
    lemma_fundamental_div_mod(n, d);
    lemma_fundamental_div_mod(d, 2);
    assert(n == 2 * ((d / 2) * (n / d))) by (nonlinear_arith)
        requires n == d * (n / d), d == 2 * (d / 2);
    lemma_mod_multiples_basic((d / 2) * (n / d), 2);
}

/// If `n` has no divisor in `[2, i)` and `i*i > n`, then `n` has none in `[2, n)`.
proof fn lemma_no_small_divisor(n: int, i: int)
    requires
        n >= 2,
        i >= 2,
        i * i > n,
        forall|d: int| 2 <= d < i ==> #[trigger] (n % d) != 0,
    ensures
        spec_is_prime(n),
{
    assert forall|d: int| 2 <= d < n implies #[trigger] (n % d) != 0 by {
        if d >= i && n % d == 0 {
            lemma_fundamental_div_mod(n, d);
            let e = n / d;
            assert(n == d * e);
            assert(2 <= e < i) by (nonlinear_arith)
                requires n == d * e, 2 <= d < n, d >= i, i * i > n, i >= 2;
            lemma_mod_multiples_basic(d, e);
            assert(n % e == 0) by {
                lemma_mul_is_commutative(d, e);
            }
            assert(n % e != 0);
        }
    }
}

/// Primality by trial division.
pub fn is_prime(n: i128) -> (b: bool)
    requires
        n <= TRIAL_LIMIT,
    ensures
        b == spec_is_prime(n as int),
{
    if n < 2 {
        return false;
    }
    if n < 4 {
        assert(forall|d: int| 2 <= d < n ==> #[trigger] ((n as int) % d) != 0);
        return true;
    }
    if n % 2 == 0 {
        return false;
    }
    let mut i: i128 = 3;
    while i * i <= n
        invariant
            5 <= n <= TRIAL_LIMIT,
            n % 2 != 0,
            3 <= i,
            i % 2 == 1,
            (i - 2) * (i - 2) <= n,
            i * i <= 0x4000_0000_0000_0008_0000_0000_0000_0004,
            forall|d: int| 2 <= d < i ==> #[trigger] ((n as int) % d) != 0,
        decreases n - i,
    {
        if n % i == 0 {
            assert(i < n) by (nonlinear_arith) requires i * i <= n, i >= 3;
            return false;
        }
        proof {
            assert forall|d: int| 2 <= d < i + 2 implies #[trigger] ((n as int) % d) != 0 by {
                if d == i + 1 && (n as int) % d == 0 {
                    lemma_even_divisor(n as int, d);
                }
            }
            assert(i < n) by (nonlinear_arith) requires i * i <= n, i >= 3;
            assert((i + 2) * (i + 2) <= 0x4000_0000_0000_0008_0000_0000_0000_0004) by (nonlinear_arith)
                requires i * i <= n, n <= TRIAL_LIMIT, i >= 3;
        }
        i += 2;
    }
    proof {
        lemma_no_small_divisor(n as int, i as int);
    }
    true
}

/// Product of `p^e` over the entries of a factor list from index `k` on.
pub open spec fn pow_from(fs: Seq<(i128, u32)>, k: int) -> int
    decreases fs.len() - k,
{
    if k < 0 || k >= fs.len() {
        1
    } else {
        pow(fs[k].0 as int, fs[k].1 as nat) * pow_from(fs, k + 1)
    }
}

/// Product of `p^e` over all entries of a factor list.
pub open spec fn factor_product(fs: Seq<(i128, u32)>) -> int {
    pow_from(fs, 0)
}

/// Every entry of a factor list is a prime with a positive exponent.
pub open spec fn prime_entries(fs: Seq<(i128, u32)>) -> bool {
    forall|i: int| 0 <= i < fs.len() ==> spec_is_prime(#[trigger] fs[i].0 as int) && fs[i].1 >= 1
}

/// `fs` is the prime factorization of `m`: primes strictly increasing,
/// exponents at least 1, product `m`.
pub open spec fn is_factorization(fs: Seq<(i128, u32)>, m: int) -> bool {
    &&& prime_entries(fs)
    &&& forall|i: int, j: int| 0 <= i < j < fs.len() ==> #[trigger] fs[i].0 < #[trigger] fs[j].0
    &&& factor_product(fs) == m
}

proof fn lemma_pow_from_push(fs: Seq<(i128, u32)>, x: (i128, u32), k: int)
    requires
        0 <= k <= fs.len(),
    ensures
        pow_from(fs.push(x), k) == pow_from(fs, k) * pow(x.0 as int, x.1 as nat),
    decreases fs.len() - k,
{
    if k < fs.len() {
        lemma_pow_from_push(fs, x, k + 1);
        assert(fs.push(x)[k] == fs[k]);
        lemma_mul_is_associative(
            pow(fs[k].0 as int, fs[k].1 as nat),
            pow_from(fs, k + 1),
            pow(x.0 as int, x.1 as nat),
        );
    } else {
        assert(fs.push(x)[k] == x);
        assert(pow_from(fs.push(x), k + 1) == 1);
    }
}

/// Powers of a base of at least 2 grow at least like powers of 2.
proof fn lemma_pow_ge_pow2(p: int, e: nat)
    requires
        p >= 2,
    ensures
        pow(p, e) >= pow2(e),
        pow(p, e) >= 1,
    decreases e,
{
    reveal(pow);
    lemma_pow2(e);
    lemma_pow2_pos(e);
    if e > 0 {
        lemma_pow_ge_pow2(p, (e - 1) as nat);
        lemma_pow2((e - 1) as nat);
        lemma_pow2_unfold(e);
        assert(p * pow(p, (e - 1) as nat) >= 2 * pow2((e - 1) as nat)) by (nonlinear_arith)
            requires p >= 2, pow(p, (e - 1) as nat) >= pow2((e - 1) as nat), pow2((e - 1) as nat) >= 0;
    }
}

/// A power of a base of at least 2 that is at most TRIAL_LIMIT has exponent below 127.
proof fn lemma_small_exponent(p: int, e: nat)
    requires
        p >= 2,
        pow(p, e) <= TRIAL_LIMIT,
    ensures
        e < 127,
{
    lemma_pow_ge_pow2(p, e);
    if e >= 127 {
        lemma2_to64();
        lemma2_to64_rest();
        lemma_pow2_adds(64, 63);
        if e > 127 {
            lemma_pow2_strictly_increases(127, e);
        }
    }
}

/// If `d` divides `m` and `m` divides `x` then `d` divides `x`.
proof fn lemma_divides_trans(d: int, m: int, x: int)
    requires
        d > 0,
        m > 0,
        m % d == 0,
        x % m == 0,
    ensures
        x % d == 0,
{
    lemma_fundamental_div_mod(m, d);
    lemma_fundamental_div_mod(x, m);
    assert(x == d * ((m / d) * (x / m))) by (nonlinear_arith)
        requires m == d * (m / d), x == m * (x / m);
    lemma_mod_multiples_basic((m / d) * (x / m), d);
    lemma_mul_is_commutative(d, (m / d) * (x / m));
}

/// A prime divides a number exactly when that number's remainder is 0; a prime
/// that divides a prime is that prime.
proof fn lemma_prime_divides_prime(r: int, p: int)
    requires
        spec_is_prime(r),
        spec_is_prime(p),
        p % r == 0,
    ensures
        r == p,
{
    lemma_fundamental_div_mod(p, r);
    lemma_div_pos_is_pos(p, r);
    assert(r <= p) by (nonlinear_arith)
        requires p == r * (p / r), p / r >= 0, p >= 2, r >= 2;
    if r < p {
        assert(p % r != 0);
    }
}

/// Euclid's lemma: a prime that divides `a · b` divides `a` or `b`.
pub proof fn lemma_euclid_prime(r: int, a: int, b: int)
    requires
        spec_is_prime(r),
        a >= 0,
        b >= 0,
        (a * b) % r == 0,
    ensures
        a % r == 0 || b % r == 0,
{
    if a % r != 0 {
        let g = spec_gcd(a as nat, r as nat) as int;
        lemma_gcd_divides(a as nat, r as nat);
        lemma_fundamental_div_mod(r, g);
        lemma_div_pos_is_pos(r, g);
        assert(g <= r) by (nonlinear_arith)
            requires r == g * (r / g), r / g >= 0, r >= 2, g > 0;
        if g == r {
            assert(false);
        }
        if g >= 2 {
            assert((r % g) != 0);
        }
        assert(g == 1);
        lemma_ext_gcd(a, r);
        let (gg, x, y) = spec_ext_gcd(a, r);
        assert(gg == 1);
        assert(b == (a * b) * x + r * (b * y)) by (nonlinear_arith)
            requires a * x + r * y == 1;
        lemma_mul_mod_noop_left(a * b, x, r);
        lemma_mod_multiples_basic(b * y, r);
        lemma_mul_is_commutative(r, b * y);
        lemma_add_mod_noop((a * b) * x, r * (b * y), r);
        lemma_small_mod(0, r as nat);
        assert((0int * x) % r == 0);
    }
}

/// A prime that divides a power of a prime is that prime.
proof fn lemma_prime_divides_power(r: int, p: int, e: nat)
    requires
        spec_is_prime(r),
        spec_is_prime(p),
        pow(p, e) % r == 0,
    ensures
        r == p,
    decreases e,
{
    if e == 0 {
        lemma_pow0(p);
        lemma_small_mod(1, r as nat);
    } else {
        lemma_pow_adds(p, 1, (e - 1) as nat);
        lemma_pow1(p);
        lemma_pow_positive(p, (e - 1) as nat);
        lemma_euclid_prime(r, p, pow(p, (e - 1) as nat));
        if p % r == 0 {
            lemma_prime_divides_prime(r, p);
        } else {
            lemma_prime_divides_power(r, p, (e - 1) as nat);
        }
    }
}

/// A prime that divides the product of a factor list from `j` on is one of its primes.
proof fn lemma_prime_divides_product(r: int, fs: Seq<(i128, u32)>, j: int)
    requires
        spec_is_prime(r),
        prime_entries(fs),
        0 <= j,
        pow_from(fs, j) % r == 0,
    ensures
        exists|k: int| j <= k < fs.len() && #[trigger] fs[k].0 == r,
    decreases fs.len() - j,
{
    if j >= fs.len() {
        lemma_small_mod(1, r as nat);
    } else {
        assert(spec_is_prime(fs[j].0 as int));
        lemma_pow_from_pos(fs, j + 1);
        lemma_pow_positive(fs[j].0 as int, fs[j].1 as nat);
        lemma_euclid_prime(r, pow(fs[j].0 as int, fs[j].1 as nat), pow_from(fs, j + 1));
        if pow(fs[j].0 as int, fs[j].1 as nat) % r == 0 {
            lemma_prime_divides_power(r, fs[j].0 as int, fs[j].1 as nat);
        } else {
            lemma_prime_divides_product(r, fs, j + 1);
        }
    }
}

/// Each prime of a factor list divides the product.
proof fn lemma_entry_divides_product(fs: Seq<(i128, u32)>, k: int, j: int)
    requires
        prime_entries(fs),
        0 <= j <= k < fs.len(),
    ensures
        pow_from(fs, j) % (fs[k].0 as int) == 0,
    decreases k - j,
{
    let r = fs[k].0 as int;
    assert(spec_is_prime(r));
    if j == k {
        lemma_pow_adds(r, 1, (fs[k].1 - 1) as nat);
        lemma_pow1(r);
        assert(pow_from(fs, j) == r * (pow(r, (fs[k].1 - 1) as nat) * pow_from(fs, k + 1))) by (nonlinear_arith)
            requires
                pow_from(fs, j) == pow(r, fs[k].1 as nat) * pow_from(fs, k + 1),
                pow(r, fs[k].1 as nat) == r * pow(r, (fs[k].1 - 1) as nat);
        lemma_mod_multiples_basic(pow(r, (fs[k].1 - 1) as nat) * pow_from(fs, k + 1), r);
        lemma_mul_is_commutative(r, pow(r, (fs[k].1 - 1) as nat) * pow_from(fs, k + 1));
    } else {
        lemma_entry_divides_product(fs, k, j + 1);
        lemma_mul_mod_noop_right(pow(fs[j].0 as int, fs[j].1 as nat), pow_from(fs, j + 1), r);
        lemma_small_mod(0, r as nat);
        assert((pow(fs[j].0 as int, fs[j].1 as nat) * 0int) == 0);
    }
}

/// The prime factorization of a product of two distinct primes `p < q` is
/// `p^1 · q^1`.
pub proof fn lemma_two_prime_factorization(n: int, p: int, q: int, fs: Seq<(i128, u32)>)
    requires
        spec_is_prime(p),
        spec_is_prime(q),
        p < q,
        p * q == n,
        is_factorization(fs, n),
    ensures
        fs.len() == 2,
        fs[0].0 == p && fs[0].1 == 1,
        fs[1].0 == q && fs[1].1 == 1,
{
    // every prime of the list is p or q
    assert forall|k: int| 0 <= k < fs.len() implies #[trigger] fs[k].0 == p || fs[k].0 == q by {
        lemma_entry_divides_product(fs, k, 0);
        let r = fs[k].0 as int;
        assert(spec_is_prime(r));
        lemma_euclid_prime(r, p, q);
        if p % r == 0 {
            lemma_prime_divides_prime(r, p);
        } else {
            lemma_prime_divides_prime(r, q);
        }
    }
    // p and q both occur
    lemma_mod_multiples_basic(q, p);
    lemma_mul_is_commutative(p, q);
    lemma_prime_divides_product(p, fs, 0);
    lemma_mod_multiples_basic(p, q);
    lemma_prime_divides_product(q, fs, 0);
    let kp = choose|k: int| 0 <= k < fs.len() && #[trigger] fs[k].0 == p;
    let kq = choose|k: int| 0 <= k < fs.len() && #[trigger] fs[k].0 == q;
    assert(kp < kq) by {
        if kq < kp {
            assert(fs[kq].0 < fs[kp].0);
        }
    }
    if fs.len() > 2 {
        assert(fs[0].0 < fs[1].0 && fs[1].0 < fs[2].0);
        assert(fs[0].0 == p || fs[0].0 == q);
        assert(fs[1].0 == p || fs[1].0 == q);
        assert(fs[2].0 == p || fs[2].0 == q);
    }
    assert(fs.len() == 2);
    assert(kp == 0 && kq == 1);
    // exponents
    let e1 = fs[0].1 as nat;
    let e2 = fs[1].1 as nat;
    lemma_pow_from_pos(fs, 2);
    assert(pow_from(fs, 2) == 1);
    assert(pow_from(fs, 1) == pow(q, e2) * pow_from(fs, 2));
    assert(pow_from(fs, 0) == pow(p, e1) * pow_from(fs, 1));
    assert(pow(p, e1) * pow(q, e2) == p * q);
    lemma_pow_adds(p, 1, (e1 - 1) as nat);
    lemma_pow1(p);
    lemma_pow_adds(q, 1, (e2 - 1) as nat);
    lemma_pow1(q);
    lemma_pow_positive(p, (e1 - 1) as nat);
    lemma_pow_positive(q, (e2 - 1) as nat);
    let a = pow(p, (e1 - 1) as nat);
    let b = pow(q, (e2 - 1) as nat);
    assert(a * b == 1) by (nonlinear_arith)
        requires pow(p, e1) == p * a, pow(q, e2) == q * b, pow(p, e1) * pow(q, e2) == p * q, p >= 2, q >= 2;
    assert(a == 1 && b == 1) by (nonlinear_arith)
        requires a * b == 1, a > 0, b > 0;
    if e1 >= 2 {
        lemma_pow_ge_pow2(p, (e1 - 1) as nat);
        lemma_pow2_strictly_increases(0, (e1 - 1) as nat);
        lemma2_to64();
    }
    if e2 >= 2 {
        lemma_pow_ge_pow2(q, (e2 - 1) as nat);
        lemma_pow2_strictly_increases(0, (e2 - 1) as nat);
        lemma2_to64();
    }
}

/// Prime factorization by trial division, primes in increasing order.
#[verifier::spinoff_prover]
#[verifier::rlimit(30)]
pub fn factorize(n: i128) -> (fs: Vec<(i128, u32)>)
    requires
        -TRIAL_LIMIT <= n <= TRIAL_LIMIT,
    ensures
        n == 0 ==> fs@.len() == 0,
        n != 0 ==> is_factorization(fs@, abs(n as int) as int),
{
    let mut result: Vec<(i128, u32)> = Vec::new();
    let mut x: i128 = if n < 0 { -n } else { n };
    let mut p: i128 = 2;
    while p * p <= x
        invariant
            n == 0 ==> x == 0 && result@.len() == 0,
            n != 0 ==> x >= 1 && x * factor_product(result@) == abs(n as int),
            0 <= x <= TRIAL_LIMIT,
            2 <= p <= 0x8000_0000_0000_0002,
            p == 2 || p % 2 == 1,
            p * p <= 0x4000_0000_0000_0008_0000_0000_0000_0004,
            forall|i: int|
                0 <= i < result@.len() ==> spec_is_prime(#[trigger] result@[i].0 as int)
                    && result@[i].1 >= 1 && result@[i].0 < p,
            forall|i: int, j: int|
                0 <= i < j < result@.len() ==> #[trigger] result@[i].0 < #[trigger] result@[j].0,
            x >= 1 ==> forall|d: int| 2 <= d < p ==> #[trigger] ((x as int) % d) != 0,
        decreases TRIAL_LIMIT - p,
    {
        let ghost x0 = x;
        assert(x >= 4) by (nonlinear_arith) requires p * p <= x, p >= 2;
        if x % p == 0 {
            let ghost x_in = x;
            let ghost prod = factor_product(result@);
            let mut e: u32 = 0;
            proof {
                lemma_pow0(p as int);
                // p is prime: a divisor of p in [2, p) would divide x
                assert forall|d: int| 2 <= d < p implies #[trigger] ((p as int) % d) != 0 by {
                    if (p as int) % d == 0 {
                        lemma_divides_trans(d, p as int, x as int);
                    }
                }
            }
            while x % p == 0
                invariant
                    2 <= p,
                    spec_is_prime(p as int),
                    1 <= x <= x_in,
                    x_in <= TRIAL_LIMIT,
                    x * pow(p as int, e as nat) == x_in,
                    (x_in as int) % (p as int) == 0,
                    e < 127,
                    x_in >= 1 ==> forall|d: int| 2 <= d < p ==> #[trigger] ((x_in as int) % d) != 0,
                    forall|d: int| 2 <= d < p ==> #[trigger] ((x as int) % d) != 0,
                decreases x,
            {
                let ghost xo = x;
                proof {
                    lemma_fundamental_div_mod(x as int, p as int);
                }
                x = x / p;
                proof {
                    assert(xo == p * x);
                    assert(x >= 1) by (nonlinear_arith) requires xo == p * x, xo >= 1, p >= 2;
                    assert(x < xo) by (nonlinear_arith) requires xo == p * x, x >= 1, p >= 2;
                    reveal(pow);
                    assert(pow(p as int, (e + 1) as nat) == p * pow(p as int, e as nat));
                    assert(x * pow(p as int, (e + 1) as nat) == x_in) by (nonlinear_arith)
                        requires
                            xo * pow(p as int, e as nat) == x_in,
                            xo == p * x,
                            pow(p as int, (e + 1) as nat) == p * pow(p as int, e as nat);
                    lemma_pow_ge_pow2(p as int, (e + 1) as nat);
                    assert(pow(p as int, (e + 1) as nat) <= x_in) by (nonlinear_arith)
                        requires x * pow(p as int, (e + 1) as nat) == x_in, x >= 1,
                            pow(p as int, (e + 1) as nat) >= 1;
                    lemma_small_exponent(p as int, (e + 1) as nat);
                    assert forall|d: int| 2 <= d < p implies #[trigger] ((x as int) % d) != 0 by {
                        if (x as int) % d == 0 {
                            lemma_mod_multiples_basic(p as int, x as int);
                            lemma_divides_trans(d, x as int, xo as int);
                        }
                    }
                }
                e = e + 1;
            }
            proof {
                lemma_pow_from_push(result@, (p, e), 0);
                assert(e >= 1) by {
                    if e == 0 {
                        lemma_pow0(p as int);
                    }
                }
                assert(x * factor_product(result@.push((p, e))) == abs(n as int)) by (nonlinear_arith)
                    requires
                        x * pow(p as int, e as nat) == x_in,
                        x_in * prod == abs(n as int),
                        factor_product(result@.push((p, e))) == prod * pow(p as int, e as nat);
            }
            let ghost old_r = result@;
            result.push((p, e));
            proof {
                assert(result@[result@.len() - 1] == (p, e));
                assert(spec_is_prime(p as int));
                assert(forall|i: int| 0 <= i < old_r.len() ==> result@[i] == old_r[i]);
                assert(forall|i: int|
                    0 <= i < result@.len() ==> spec_is_prime(#[trigger] result@[i].0 as int)
                        && result@[i].1 >= 1 && result@[i].0 <= p);
            }
        }
        assert(x >= 1);
        assert(forall|d: int| 2 <= d <= p ==> #[trigger] ((x as int) % d) != 0);
        let ghost po = p;
        if p == 2 {
            p = p + 1;
        } else {
            p = p + 2;
            proof {
                assert forall|d: int| 2 <= d < p implies #[trigger] ((x as int) % d) != 0 by {
                    if x >= 1 && d == po + 1 && (x as int) % d == 0 {
                        lemma_even_divisor(x as int, d);
                    }
                }
            }
        }
        assert(p <= 0x8000_0000_0000_0002) by (nonlinear_arith)
            requires po * po <= x0, x0 <= TRIAL_LIMIT, p <= po + 2, po >= 2;
        proof { lemma_mul_upper_bound(p as int, 0x8000_0000_0000_0002, p as int, 0x8000_0000_0000_0002); }
    }
    if x > 1 {
        proof {
            lemma_no_small_divisor(x as int, p as int);
            assert(x >= p) by {
                if x < p {
                    lemma_mod_self_0(x as int);
                }
            }
            lemma_pow_from_push(result@, (x, 1u32), 0);
            lemma_pow1(x as int);
        }
        let ghost old_r = result@;
        result.push((x, 1));
        proof {
            assert(result@[result@.len() - 1] == (x, 1u32));
            assert(forall|i: int| 0 <= i < old_r.len() ==> result@[i] == old_r[i]);
            assert(prime_entries(result@));
            assert(factor_product(result@) == factor_product(old_r) * x);
            assert(factor_product(result@) == abs(n as int)) by (nonlinear_arith)
                requires
                    factor_product(result@) == factor_product(old_r) * x,
                    x * factor_product(old_r) == abs(n as int);
        }
    } else {
        proof {
            if n != 0 {
                assert(x == 1);
                assert(prime_entries(result@));
            }
        }
    }
    result
}

/// `prod_{i<k} p_i^(e_i - 1) * (p_i - 1)` over a factor list.
pub open spec fn phi_prefix(fs: Seq<(i128, u32)>, k: int) -> int
    decreases k,
{
    if k <= 0 {
        1
    } else {
        phi_prefix(fs, k - 1) * pow(fs[k - 1].0 as int, (fs[k - 1].1 - 1) as nat) * (fs[k - 1].0 - 1)
    }
}

/// Euler's product formula over a prime factorization: `prod p^(e-1) * (p - 1)`.
pub open spec fn phi_of(fs: Seq<(i128, u32)>) -> int {
    phi_prefix(fs, fs.len() as int)
}

/// `phi` is Euler's phi of `n` (0 for `n <= 0`): the product formula over a
/// prime factorization of `n`.
pub open spec fn phi_value(n: int, phi: int) -> bool {
    if n <= 0 {
        phi == 0
    } else {
        exists|fs: Seq<(i128, u32)>| is_factorization(fs, n) && phi == phi_of(fs)
    }
}

/// Euler's phi function by the product formula over the prime factorization.
pub fn euler_phi(n: i128) -> (r: i128)
    requires
        n <= TRIAL_LIMIT,
    ensures
        phi_value(n as int, r as int),
        n > 0 ==> 1 <= r <= n,
{
    if n <= 0 {
        return 0;
    }
    let fs = factorize(n);
    let mut result = n;
    let mut k: usize = 0;
    while k < fs.len()
        invariant
            is_factorization(fs@, n as int),
            k <= fs@.len(),
            result == phi_prefix(fs@, k as int) * pow_from(fs@, k as int),
            1 <= result <= n,
            phi_prefix(fs@, k as int) >= 1,
            pow_from(fs@, k as int) >= 1,
        decreases fs@.len() - k,
    {
        let (p, _e) = fs[k];
        let ghost e = fs@[k as int].1;
        let ghost a = phi_prefix(fs@, k as int);
        let ghost rest = pow_from(fs@, k as int + 1);
        proof {
            assert(spec_is_prime(fs@[k as int].0 as int) && e >= 1);
            reveal(pow);
            assert(pow(p as int, e as nat) == p * pow(p as int, (e - 1) as nat));
            lemma_pow_ge_pow2(p as int, (e - 1) as nat);
            assert(rest >= 1) by {
                lemma_pow_from_pos(fs@, k as int + 1);
            }
            let x = a * pow(p as int, (e - 1) as nat) * rest;
            assert(result == x * p) by (nonlinear_arith)
                requires
                    result == a * (pow(p as int, e as nat) * rest),
                    pow(p as int, e as nat) == p * pow(p as int, (e - 1) as nat),
                    x == a * pow(p as int, (e - 1) as nat) * rest;
            lemma_div_multiples_vanish(x, p as int);
            lemma_mul_is_commutative(x, p as int);
            assert(result / p == x);
            assert(x >= 1) by (nonlinear_arith)
                requires a >= 1, pow(p as int, (e - 1) as nat) >= 1, rest >= 1, x == a * pow(p as int, (e - 1) as nat) * rest;
            assert(x * (p - 1) <= result) by (nonlinear_arith)
                requires result == x * p, x >= 1, p >= 2;
            assert(x * (p - 1) >= 1) by (nonlinear_arith) requires x >= 1, p >= 2;
            assert(phi_prefix(fs@, k as int + 1) == a * pow(p as int, (e - 1) as nat) * (p - 1));
            assert(x * (p - 1) == phi_prefix(fs@, k as int + 1) * rest) by (nonlinear_arith)
                requires
                    x == a * pow(p as int, (e - 1) as nat) * rest,
                    phi_prefix(fs@, k as int + 1) == a * pow(p as int, (e - 1) as nat) * (p - 1);
            assert(phi_prefix(fs@, k as int + 1) >= 1) by (nonlinear_arith)
                requires a >= 1, pow(p as int, (e - 1) as nat) >= 1, p >= 2,
                    phi_prefix(fs@, k as int + 1) == a * pow(p as int, (e - 1) as nat) * (p - 1);
        }
        result = result / p * (p - 1);
        k = k + 1;
    }
    assert(pow_from(fs@, fs@.len() as int) == 1);
    assert(is_factorization(fs@, n as int) && result == phi_of(fs@));
    result
}

proof fn lemma_pow_from_pos(fs: Seq<(i128, u32)>, k: int)
    requires
        prime_entries(fs),
    ensures
        pow_from(fs, k) >= 1,
    decreases fs.len() - k,
{
    if 0 <= k < fs.len() {
        lemma_pow_from_pos(fs, k + 1);
        assert(spec_is_prime(fs[k].0 as int));
        lemma_pow_ge_pow2(fs[k].0 as int, fs[k].1 as nat);
        lemma_mul_strictly_positive(pow(fs[k].0 as int, fs[k].1 as nat), pow_from(fs, k + 1));
    }
}

/// Euler's phi of a prime `p` is `p - 1`.
pub proof fn lemma_phi_prime(p: int, phi: int)
    requires
        spec_is_prime(p),
        phi_value(p, phi),
    ensures
        phi == p - 1,
{
    let fs = choose|fs: Seq<(i128, u32)>| is_factorization(fs, p) && phi == phi_of(fs);
    assert(fs.len() > 0);
    let q = fs[0].0 as int;
    let e = fs[0].1 as nat;
    assert(spec_is_prime(q) && e >= 1);
    lemma_pow_from_pos(fs, 1);
    let rest = pow_from(fs, 1);
    let qe1 = pow(q, (e - 1) as nat);
    lemma_pow_ge_pow2(q, (e - 1) as nat);
    lemma_pow_adds(q, 1, (e - 1) as nat);
    lemma_pow1(q);
    assert(pow(q, e) == q * qe1);
    let m = qe1 * rest;
    assert(m >= 1) by (nonlinear_arith)
        requires qe1 >= 1, rest >= 1, m == qe1 * rest;
    assert(p == q * m) by (nonlinear_arith)
        requires p == pow(q, e) * rest, pow(q, e) == q * qe1, m == qe1 * rest;
    lemma_mod_multiples_basic(m, q);
    lemma_mul_is_commutative(q, m);
    assert(q <= p) by (nonlinear_arith)
        requires p == q * m, m >= 1, q >= 2;
    if q < p {
        assert(p % q != 0);
    }
    assert(q == p);
    assert(m == 1) by (nonlinear_arith)
        requires p == q * m, q == p, p >= 2;
    assert(qe1 == 1 && rest == 1) by (nonlinear_arith)
        requires m == qe1 * rest, m == 1, qe1 >= 1, rest >= 1;
    if e >= 2 {
        lemma_pow2_strictly_increases(0, (e - 1) as nat);
        lemma2_to64();
    }
    assert(e == 1);
    if fs.len() >= 2 {
        lemma_pow_from_pos(fs, 2);
        assert(spec_is_prime(fs[1].0 as int));
        lemma_pow_ge_pow2(fs[1].0 as int, fs[1].1 as nat);
        lemma_pow_adds(fs[1].0 as int, 1, (fs[1].1 - 1) as nat);
        lemma_pow1(fs[1].0 as int);
        lemma_pow_ge_pow2(fs[1].0 as int, (fs[1].1 - 1) as nat);
        assert(pow(fs[1].0 as int, fs[1].1 as nat) >= 2) by (nonlinear_arith)
            requires
                pow(fs[1].0 as int, fs[1].1 as nat) == fs[1].0 * pow(fs[1].0 as int, (fs[1].1 - 1) as nat),
                fs[1].0 >= 2,
                pow(fs[1].0 as int, (fs[1].1 - 1) as nat) >= 1;
        assert(rest >= 2) by (nonlinear_arith)
            requires
                rest == pow(fs[1].0 as int, fs[1].1 as nat) * pow_from(fs, 2),
                pow(fs[1].0 as int, fs[1].1 as nat) >= 2,
                pow_from(fs, 2) >= 1;
    }
    assert(fs.len() == 1);
    lemma_pow0(p);
    assert(phi_prefix(fs, 0) == 1);
    assert(phi_prefix(fs, 1) == phi_prefix(fs, 0) * pow(fs[0].0 as int, (fs[0].1 - 1) as nat) * (fs[0].0 - 1));
}

/// `d` divides `phi`, lies in `[1, phi]`, and `g^d = 1 (mod p)`.
pub open spec fn order_candidate(g: int, p: int, phi: int, d: int) -> bool {
    1 <= d <= phi && phi % d == 0 && pow(g, d as nat) % p == 1
}

/// `k` is the least divisor of `phi` with `g^k = 1 (mod p)`.
pub open spec fn least_order(g: int, p: int, phi: int, k: int) -> bool {
    order_candidate(g, p, phi, k) && forall|c: int| 1 <= c < k ==> !#[trigger] order_candidate(g, p, phi, c)
}

/// No divisor of `phi` has `g^d = 1 (mod p)`.
pub open spec fn no_order(g: int, p: int, phi: int) -> bool {
    forall|c: int| !#[trigger] order_candidate(g, p, phi, c)
}

/// The cofactor `phi / c` of a divisor `c` of `phi > 0` is a divisor too; a
/// divisor above the square root has its cofactor below it; the order of two
/// divisors is the reverse of the order of their cofactors.
proof fn lemma_cofactor(phi: int, c: int)
    requires
        phi >= 1,
        c >= 1,
        phi % c == 0,
    ensures
        phi / c >= 1,
        phi == c * (phi / c),
        phi % (phi / c) == 0,
        phi / (phi / c) == c,
        c * c > phi ==> (phi / c) * (phi / c) < phi,
        forall|s: int| s >= 1 && phi % s == 0 && c < #[trigger] (phi / s) ==> phi / c > s,
{
    lemma_fundamental_div_mod(phi, c);
    let pc = phi / c;
    assert(phi == c * pc);
    assert(pc >= 1) by (nonlinear_arith) requires phi == c * pc, phi >= 1, c >= 1;
    lemma_mod_multiples_basic(c, pc);
    lemma_div_multiples_vanish(c, pc);
    lemma_mul_is_commutative(c, pc);
    if c * c > phi {
        assert(pc * pc < phi) by (nonlinear_arith)
            requires phi == c * pc, c * c > phi, c >= 1, pc >= 1;
    }
    assert forall|s: int| s >= 1 && phi % s == 0 && c < #[trigger] (phi / s) implies phi / c > s by {
        lemma_fundamental_div_mod(phi, s);
        let ps = phi / s;
        assert(pc > s) by (nonlinear_arith)
            requires phi == c * pc, phi == s * ps, c < ps, c >= 1, s >= 1;
    }
}

/// Multiplicative order of `g` modulo `p`: the least divisor `k` of `phi(p)`
/// with `g^k = 1 (mod p)`.
pub fn order_mod(g: i128, p: i128) -> (r: CalcResult<i128>)
    requires
        g != i128::MIN,
        p != i128::MIN,
        p <= MOD_LIMIT,
    ensures
        spec_gcd(abs(g as int), abs(p as int)) != 1 ==> (r matches Err(CalcError::Bereich(s))
            && s@ == "g muss teilerfremd zu p sein"@),
        spec_gcd(abs(g as int), abs(p as int)) == 1 ==> exists|phi: int|
            #[trigger] phi_value(p as int, phi) && (match r {
                Ok(k) => least_order(g as int, p as int, phi, k as int),
                Err(e) => no_order(g as int, p as int, phi) && (e matches CalcError::KeineLoesung(
                    s,
                ) && s@ == "Ordnung nicht gefunden"@),
            }),
{
    if gcd(g, p) != 1 {
        return Err(CalcError::Bereich(String::from_str("g muss teilerfremd zu p sein")));
    }
    let phi = euler_phi(p);
    let ghost ph = phi as int;
    let mut d: i128 = 1;
    while d * d <= phi
        invariant
            spec_gcd(abs(g as int), abs(p as int)) == 1,
            phi_value(p as int, ph),
            ph == phi,
            p <= MOD_LIMIT,
            0 <= phi <= MOD_LIMIT,
            phi >= 1 ==> p >= 1,
            1 <= d <= 0x1_0000_0001,
            d * d <= 0x1_0000_0002_0000_0001,
            (d - 1) * (d - 1) <= phi,
            forall|c: int| 1 <= c < d ==> !#[trigger] order_candidate(g as int, p as int, ph, c),
        decreases MOD_LIMIT - d,
    {
        assert(phi >= 1 && d <= phi) by (nonlinear_arith) requires d * d <= phi, d >= 1;
        if phi % d == 0 {
            let v = match mod_pow(g, d, p) {
                Ok(v) => v,
                Err(e) => return Err(e),
            };
            if v == 1 {
                assert(least_order(g as int, p as int, ph, d as int));
                assert(phi_value(p as int, ph));
                return Ok(d);
            }
        }
        assert(d <= 0x1_0000_0000) by (nonlinear_arith) requires d * d <= phi, phi <= MOD_LIMIT, d >= 1;
        proof {
            lemma_mul_upper_bound(d + 1, 0x1_0000_0001, d + 1, 0x1_0000_0001);
        }
        d += 1;
    }
    // every divisor c with c * c <= phi lies below d
    assert forall|c: int| 1 <= c && c * c <= phi implies !#[trigger] order_candidate(
        g as int,
        p as int,
        ph,
        c,
    ) by {
        assert(c < d) by (nonlinear_arith) requires c * c <= phi, d * d > phi, c >= 1, d >= 1;
    }
    let mut s: i128 = d - 1;
    assert(s * s <= phi);
    // a divisor above the square root has its cofactor below d
    assert forall|c: int|
        c * c > phi && c >= 1 && ph % c == 0 && ph / c > s implies !#[trigger] order_candidate(
        g as int,
        p as int,
        ph,
        c,
    ) by {
        lemma_cofactor(ph, c);
        assert(false) by (nonlinear_arith)
            requires (ph / c) * (ph / c) < ph, ph / c >= d, d * d > ph, d >= 1;
    }
    while s >= 1
        invariant
            spec_gcd(abs(g as int), abs(p as int)) == 1,
            phi_value(p as int, ph),
            ph == phi,
            p <= MOD_LIMIT,
            0 <= phi <= MOD_LIMIT,
            phi >= 1 ==> p >= 1,
            0 <= s,
            s * s <= phi,
            forall|c: int| 1 <= c && c * c <= phi ==> !#[trigger] order_candidate(g as int, p as int, ph, c),
            forall|c: int|
                c * c > phi && c >= 1 && ph % c == 0 && ph / c > s ==> !#[trigger] order_candidate(
                    g as int,
                    p as int,
                    ph,
                    c,
                ),
        decreases s,
    {
        assert(phi >= 1) by (nonlinear_arith) requires s * s <= phi, s >= 1;
        if phi % s == 0 {
            let big = phi / s;
            proof {
                lemma_cofactor(ph, s as int);
                assert(big == ph / (s as int));
            }
            if big != s {
                proof {
                    assert(big * big > phi) by (nonlinear_arith)
                        requires phi == s * big, s * s <= phi, big != s, s >= 1, big >= 1;
                    assert(big <= phi) by (nonlinear_arith) requires phi == s * big, s >= 1, big >= 1;
                }
                let v = match mod_pow(g, big, p) {
                    Ok(v) => v,
                    Err(e) => return Err(e),
                };
                if v == 1 {
                    proof {
                        assert(order_candidate(g as int, p as int, ph, big as int));
                        assert forall|c: int| 1 <= c < big implies !#[trigger] order_candidate(
                            g as int,
                            p as int,
                            ph,
                            c,
                        ) by {
                            if order_candidate(g as int, p as int, ph, c) && c * c > phi {
                                lemma_cofactor(ph, c);
                                assert(ph / (s as int) == big);
                            }
                        }
                        assert(least_order(g as int, p as int, ph, big as int));
                        assert(phi_value(p as int, ph));
                    }
                    return Ok(big);
                }
                proof {
                    assert(!order_candidate(g as int, p as int, ph, big as int));
                }
            }
        }
        proof {
            assert forall|c: int|
                c * c > phi && c >= 1 && ph % c == 0 && ph / c > s - 1 implies !#[trigger] order_candidate(
                g as int,
                p as int,
                ph,
                c,
            ) by {
                lemma_cofactor(ph, c);
                if ph / c == s {
                    // then s divides phi and c is the cofactor of s, which was checked
                    assert(ph % (s as int) == 0);
                    assert(c == ph / (s as int));
                    if c == s {
                        assert(c * c == ph);
                    }
                }
            }
            assert((s - 1) * (s - 1) <= phi) by (nonlinear_arith) requires s * s <= phi, s >= 1;
        }
        s -= 1;
    }
    proof {
        assert forall|c: int| !#[trigger] order_candidate(g as int, p as int, ph, c) by {
            if order_candidate(g as int, p as int, ph, c) && c * c > phi {
                lemma_cofactor(ph, c);
            }
        }
        assert(no_order(g as int, p as int, ph));
        assert(phi_value(p as int, ph));
    }
    Err(CalcError::KeineLoesung(String::from_str("Ordnung nicht gefunden")))
}

/// A positive multiple of a positive `d` is at least `d`.
proof fn lemma_divisor_le(x: int, d: int)
    requires
        x > 0,
        d > 0,
        x % d == 0,
    ensures
        d <= x,
{
    lemma_fundamental_div_mod(x, d);
    assert(d <= x) by (nonlinear_arith) requires x == d * (x / d), x > 0, d > 0;
}

/// Divisibility is kept under negation.
proof fn lemma_mod_neg_zero(x: int, d: int)
    requires
        d > 0,
        x % d == 0,
    ensures
        (-x) % d == 0,
{
    lemma_fundamental_div_mod(x, d);
    assert(-x == (-(x / d)) * d + 0) by (nonlinear_arith) requires x == d * (x / d);
    lemma_mod_unique(-x, d, -(x / d), 0);
}

/// Reducing the first argument modulo `n` keeps the gcd with `n`.
pub proof fn lemma_gcd_mod(a: int, n: int)
    requires
        n > 0,
    ensures
        spec_gcd((a % n) as nat, n as nat) == spec_gcd(abs(a), n as nat),
{
    lemma_mod_bound(a, n);
    let r = a % n;
    let g1 = spec_gcd(r as nat, n as nat);
    let g2 = spec_gcd(abs(a), n as nat);
    lemma_gcd_divides(r as nat, n as nat);
    lemma_gcd_divides(abs(a), n as nat);
    lemma_fundamental_div_mod(a, n);
    // g1 divides a = n * (a / n) + r, so g1 divides |a|
    lemma_mod_sum_multiple(n, a / n, r, g1 as int);
    if a < 0 {
        lemma_mod_neg_zero(a, g1 as int);
    }
    assert((abs(a) as int) % (g1 as int) == 0);
    lemma_common_divisor_divides_gcd(abs(a), n as nat, g1 as int);
    // g2 divides a and n, so g2 divides r = n * (-(a / n)) + a
    if a < 0 {
        lemma_mod_neg_zero(abs(a) as int, g2 as int);
    }
    assert(a % (g2 as int) == 0);
    assert(r == n * (-(a / n)) + a) by (nonlinear_arith) requires a == n * (a / n) + r;
    lemma_mod_sum_multiple(n, -(a / n), a, g2 as int);
    lemma_common_divisor_divides_gcd(r as nat, n as nat, g2 as int);
    lemma_divisor_le(g2 as int, g1 as int);
    lemma_divisor_le(g1 as int, g2 as int);
}

/// Modulo a prime, `x` has an inverse exactly when it is not a multiple of `p`.
pub proof fn lemma_coprime_prime(x: int, p: int)
    requires
        spec_is_prime(p),
    ensures
        coprime_mod(x, p) <==> x % p != 0,
{
    let r = x % p;
    vstd::arithmetic::div_mod::lemma_mod_bound(x, p);
    if r != 0 {
        crate::modulo::cyclic_groups::lemma_coprime_below_prime(r, p);
    } else {
        lemma_gcd_zero(0, p as nat);
        assert(spec_gcd(0, p as nat) == spec_gcd(p as nat, 0)) by {
            reveal_with_fuel(spec_gcd, 2);
        }
    }
}

/// Modulo a prime, a product of invertible values is invertible, and its
/// inverse is the product of the inverses.
pub proof fn lemma_inv_product(x: int, y: int, p: int)
    requires
        spec_is_prime(p),
        coprime_mod(x, p),
        coprime_mod(y, p),
    ensures
        coprime_mod(x * y, p),
        inv_mod(x * y, p) == (inv_mod(x, p) * inv_mod(y, p)) % p,
{
    lemma_coprime_prime(x, p);
    lemma_coprime_prime(y, p);
    vstd::arithmetic::div_mod::lemma_mod_bound(x, p);
    vstd::arithmetic::div_mod::lemma_mod_bound(y, p);
    vstd::arithmetic::div_mod::lemma_mul_mod_noop(x, y, p);
    if (x * y) % p == 0 {
        lemma_euclid_prime(p, x % p, y % p);
        vstd::arithmetic::div_mod::lemma_mod_twice(x, p);
        vstd::arithmetic::div_mod::lemma_mod_twice(y, p);
        assert(false);
    }
    lemma_coprime_prime(x * y, p);
    let ix = inv_mod(x, p);
    let iy = inv_mod(y, p);
    lemma_inv_mod(x, p);
    lemma_inv_mod(y, p);
    let w = (ix * iy) % p;
    vstd::arithmetic::div_mod::lemma_mod_bound(ix * iy, p);
    // (x y)(ix iy) = (x ix)(y iy) = 1 (mod p)
    vstd::arithmetic::div_mod::lemma_mul_mod_noop_right(x * y, ix * iy, p);
    assert((x * y) * (ix * iy) == (x * ix) * (y * iy)) by (nonlinear_arith);
    vstd::arithmetic::div_mod::lemma_mul_mod_noop(x * ix, y * iy, p);
    vstd::arithmetic::div_mod::lemma_small_mod(1, p as nat);
    lemma_inv_unique(x * y, p, w);
}

} // verus!
