//! The command dispatcher: a fixed list of commands, each with named
//! parameters that are read as integers (or text) and handed to one computation.
use vstd::prelude::*;
use crate::algorithms::ecc::{EC_LIMIT, Point, coord_ok, disc_fits, params_ok};
use crate::algorithms::elgamal_signature::sign_fits;
use crate::playbooks::rsa_geg_kpub_kpriv_encm_ges_kpriv_to_kpub::{key_check_fits, key_check_supported};
use crate::error::{CalcError, CalcResult};
use crate::math::{
    MOD_LIMIT, TRIAL_LIMIT, abs, coprime_mod, inv_mod, is_prime, mod_inv, rem_euclid,
    rem_euclid_ok, spec_is_prime,
};
use crate::modulo::operations::TABLE_LIMIT;
use crate::text::push_str;
use crate::trace::Trace;
use crate::validation::{parse_exact, parse_i128, text_eq};

verus! {

/// A parameter value as a request carries it.
#[derive(Debug, Clone)]
pub enum ParamValue {
    /// No value.
    Null,
    /// A text.
    Text(String),
    /// A whole number.
    Int(i128),
    /// Anything else: a fraction, a truth value, a list or a record.
    Other,
}

/// Named parameters of a command; where a name occurs twice, its first entry counts.
#[derive(Debug, Clone)]
pub struct Params {
    pub entries: Vec<(String, ParamValue)>,
}

/// The value of the first entry named `k`.
pub open spec fn lookup(e: Seq<(String, ParamValue)>, k: Seq<char>) -> Option<ParamValue>
    decreases e.len(),
{
    if e.len() == 0 {
        None
    } else if e[0].0@ == k {
        Some(e[0].1)
    } else {
        lookup(e.drop_first(), k)
    }
}

impl Params {
    /// No parameters.
    pub fn new() -> (p: Self)
        ensures
            p.entries@.len() == 0,
    {
        Params { entries: Vec::new() }
    }

    /// Adds the parameter `key` at the end.
    pub fn push(&mut self, key: &str, value: ParamValue)
        ensures
            final(self).entries@.len() == old(self).entries@.len() + 1,
            final(self).entries@.drop_last() == old(self).entries@,
            final(self).entries@.last().0@ == key@,
            final(self).entries@.last().1 == value,
    {
        self.entries.push((String::from_str(key), value));
        assert(self.entries@.drop_last() =~= old(self).entries@);
    }

    /// The value of the parameter `key`.
    pub fn get(&self, key: &str) -> (r: Option<&ParamValue>)
        ensures
            r is Some <==> lookup(self.entries@, key@) is Some,
            r matches Some(v) ==> lookup(self.entries@, key@) == Some(*v),
    {
        let mut i: usize = 0;
        assert(self.entries@.skip(0) =~= self.entries@);
        while i < self.entries.len()
            invariant
                i <= self.entries@.len(),
                lookup(self.entries@, key@) == lookup(self.entries@.skip(i as int), key@),
            decreases self.entries@.len() - i,
        {
            let ghost rest = self.entries@.skip(i as int);
            assert(rest[0] == self.entries@[i as int]);
            if text_eq(self.entries[i].0.as_str(), key) {
                return Some(&self.entries[i].1);
            }
            assert(rest.drop_first() =~= self.entries@.skip(i + 1));
            i += 1;
        }
        None
    }
}

/// Message for a parameter that is absent.
pub open spec fn missing_message(k: Seq<char>) -> Seq<char> {
    "Parameter '"@ + k + "' fehlt"@
}

/// Message for a command name that is not listed.
pub open spec fn unknown_message(c: Seq<char>) -> Seq<char> {
    "Unbekanntes Kommando '"@ + c + "'"@
}

/// The request was refused as invalid input with message `m`.
pub open spec fn refused_with<T>(r: CalcResult<T>, m: Seq<char>) -> bool {
    r matches Err(CalcError::UngueltigeEingabe(s)) && s@ == m
}

/// The integer parameter `k`: a number, or a text that reads as an `i128`.
pub open spec fn int_arg(e: Seq<(String, ParamValue)>, k: Seq<char>) -> Result<int, Seq<char>> {
    match lookup(e, k) {
        None => Err(missing_message(k)),
        Some(ParamValue::Text(s)) => match parse_i128(s@) {
            Some(v) => Ok(v),
            None => Err("'"@ + k + "' ist keine Ganzzahl"@),
        },
        Some(ParamValue::Int(v)) => Ok(v as int),
        Some(_) => Err("Parameter '"@ + k + "' muss Zahl oder Zahlen-String sein"@),
    }
}

/// The optional integer parameter `k`: absent or empty gives `None`.
pub open spec fn opt_arg(e: Seq<(String, ParamValue)>, k: Seq<char>) -> Result<Option<int>, Seq<char>> {
    match lookup(e, k) {
        None => Ok(None),
        Some(ParamValue::Null) => Ok(None),
        Some(_) => match int_arg(e, k) {
            Ok(v) => Ok(Some(v)),
            Err(m) => Err(m),
        },
    }
}

/// The text parameter `k`.
pub open spec fn text_arg(e: Seq<(String, ParamValue)>, k: Seq<char>) -> Result<Seq<char>, Seq<char>> {
    match lookup(e, k) {
        Some(ParamValue::Text(s)) => Ok(s@),
        _ => Err(missing_message(k)),
    }
}

/// The integer parameters `keys`, read in order; the first that cannot be read gives its message.
pub open spec fn int_args(e: Seq<(String, ParamValue)>, keys: Seq<Seq<char>>) -> Result<
    Seq<int>,
    Seq<char>,
>
    decreases keys.len(),
{
    if keys.len() == 0 {
        Ok(Seq::empty())
    } else {
        match int_args(e, keys.drop_last()) {
            Err(m) => Err(m),
            Ok(vs) => match int_arg(e, keys.last()) {
                Err(m) => Err(m),
                Ok(v) => Ok(vs.push(v)),
            },
        }
    }
}

/// An optional integer as an `i128`.
pub open spec fn opt_i128(o: Option<int>) -> Option<i128> {
    match o {
        Some(x) => Some(x as i128),
        None => None,
    }
}

/// The error `UngueltigeEingabe` with the text `pre key post`.
fn refusal(pre: &str, key: &str, post: &str) -> (e: CalcError)
    ensures
        e matches CalcError::UngueltigeEingabe(s) && s@ == pre@ + key@ + post@,
{
    let mut s = String::from_str(pre);
    push_str(&mut s, key);
    push_str(&mut s, post);
    CalcError::UngueltigeEingabe(s)
}

/// Reads the integer parameter `key`.
fn pi(params: &Params, key: &str) -> (r: CalcResult<i128>)
    ensures
        int_arg(params.entries@, key@) matches Ok(v) ==> r == Ok::<i128, CalcError>(v as i128),
        int_arg(params.entries@, key@) matches Err(m) ==> refused_with(r, m),
{
    match params.get(key) {
        None => Err(refusal("Parameter '", key, "' fehlt")),
        Some(ParamValue::Text(s)) => match parse_exact(s.as_str()) {
            Some(v) => Ok(v),
            None => Err(refusal("'", key, "' ist keine Ganzzahl")),
        },
        Some(ParamValue::Int(v)) => Ok(*v),
        Some(_) => Err(refusal("Parameter '", key, "' muss Zahl oder Zahlen-String sein")),
    }
}

/// Reads the optional integer parameter `key`.
fn opt_i(params: &Params, key: &str) -> (r: CalcResult<Option<i128>>)
    ensures
        opt_arg(params.entries@, key@) matches Ok(o) ==> r == Ok::<Option<i128>, CalcError>(
            opt_i128(o),
        ),
        opt_arg(params.entries@, key@) matches Err(m) ==> refused_with(r, m),
{
    match params.get(key) {
        None => Ok(None),
        Some(ParamValue::Null) => Ok(None),
        Some(_) => match pi(params, key) {
            Ok(v) => Ok(Some(v)),
            Err(e) => Err(e),
        },
    }
}

/// Reads the text parameter `key`.
fn ps(params: &Params, key: &str) -> (r: CalcResult<String>)
    ensures
        text_arg(params.entries@, key@) matches Ok(s) ==> (r matches Ok(t) && t@ == s),
        text_arg(params.entries@, key@) matches Err(m) ==> refused_with(r, m),
{
    match params.get(key) {
        Some(ParamValue::Text(s)) => Ok(String::from_str(s.as_str())),
        _ => Err(refusal("Parameter '", key, "' fehlt")),
    }
}

/// Reads the integer parameters `keys` in order.
fn int_args_of(params: &Params, keys: &[&str]) -> (r: CalcResult<Vec<i128>>)
    ensures
        int_args(params.entries@, keys@.map_values(|k: &str| k@)) matches Ok(vs) ==> (r matches Ok(
            v,
        ) && v@.len() == vs.len() && forall|i: int| 0 <= i < vs.len() ==> v@[i] as int == vs[i]),
        int_args(params.entries@, keys@.map_values(|k: &str| k@)) matches Err(m) ==> refused_with(
            r,
            m,
        ),
        r matches Ok(v) ==> v@.len() == keys@.len(),
{
    let ghost ks = keys@.map_values(|k: &str| k@);
    let mut v: Vec<i128> = Vec::new();
    let mut i: usize = 0;
    assert(ks.take(0) =~= Seq::<Seq<char>>::empty());
    while i < keys.len()
        invariant
            i <= keys@.len(),
            ks == keys@.map_values(|k: &str| k@),
            v@.len() == i,
            int_args(params.entries@, ks.take(i as int)) matches Ok(vs) && v@.len() == vs.len()
                && forall|j: int| 0 <= j < vs.len() ==> v@[j] as int == vs[j],
        decreases keys@.len() - i,
    {
        let ghost before = ks.take(i as int);
        assert(ks.take(i + 1).drop_last() =~= before);
        assert(ks.take(i + 1).last() == keys@[i as int]@);
        match pi(params, keys[i]) {
            Ok(x) => {
                v.push(x);
            },
            Err(e) => {
                proof {
                    lemma_int_args_prefix_err(params.entries@, ks, i as int + 1);
                }
                return Err(e);
            },
        }
        i += 1;
    }
    assert(ks.take(i as int) =~= ks);
    Ok(v)
}

/// Once a prefix of the keys fails to read, the whole list fails with the same message.
proof fn lemma_int_args_prefix_err(e: Seq<(String, ParamValue)>, ks: Seq<Seq<char>>, i: int)
    requires
        0 <= i <= ks.len(),
        int_args(e, ks.take(i)) is Err,
    ensures
        int_args(e, ks) == int_args(e, ks.take(i)),
    decreases ks.len() - i,
{
    if i < ks.len() {
        assert(ks.take(i + 1).drop_last() =~= ks.take(i));
        lemma_int_args_prefix_err(e, ks, i + 1);
    } else {
        assert(ks.take(i) =~= ks);
    }
}

/// The description of one command: its name, its parameter names (`?` marks an
/// optional one) and what it computes.
#[derive(Debug, Clone)]
pub struct CommandSpec {
    pub name: &'static str,
    pub params: &'static [&'static str],
    pub description: &'static str,
}


/// Whether `rem_euclid` accepts `a` and `n`.
fn rem_ok(a: i128, n: i128) -> (b: bool)
    ensures
        b == rem_euclid_ok(a as int, n as int),
{
    n != 0 && !(a == i128::MIN && n == -1) && !(n == i128::MIN && i128::MIN < a && a < 0)
}

/// Whether `x * y` lies in `i128`.
fn mul_fits(x: i128, y: i128) -> (b: bool)
    ensures
        b == (i128::MIN <= x * y <= i128::MAX),
{
    x.checked_mul(y).is_some()
}

/// Whether `x * y <= i128::MAX`.
fn mul_le_max(x: i128, y: i128) -> (b: bool)
    ensures
        b == (x * y <= i128::MAX),
{
    match x.checked_mul(y) {
        Some(_) => true,
        None => {
            if (x < 0) != (y < 0) {
                assert(x * y <= 0) by (nonlinear_arith)
                    requires (x < 0 && y >= 0) || (x >= 0 && y < 0);
                true
            } else {
                assert(x * y >= 0) by (nonlinear_arith)
                    requires (x < 0 && y < 0) || (x >= 0 && y >= 0);
                false
            }
        },
    }
}

/// Whether `(p - 1) * |g| <= i128::MAX`.
fn shifted_abs_fits(p: i128, g: i128) -> (b: bool)
    ensures
        b == ((p - 1) * abs(g as int) <= i128::MAX),
{
    let ghost ag = abs(g as int) as int;
    if p <= 1 {
        assert((p - 1) * ag <= 0) by (nonlinear_arith) requires p <= 1, ag >= 0;
        true
    } else if g == i128::MIN {
        assert((p - 1) * ag > i128::MAX) by (nonlinear_arith)
            requires p >= 2, ag == 0x8000_0000_0000_0000_0000_0000_0000_0000;
        false
    } else {
        let a = if g < 0 { -g } else { g };
        assert((p - 1) * a >= 0) by (nonlinear_arith) requires p >= 1, a >= 0;
        (p - 1).checked_mul(a).is_some()
    }
}

/// Whether `|e| * n <= i128::MAX`.
fn abs_mul_fits(e: i128, n: i128) -> (b: bool)
    ensures
        b == (abs(e as int) * n <= i128::MAX),
{
    let ghost ae = abs(e as int) as int;
    if n <= 0 {
        assert(ae * n <= 0) by (nonlinear_arith) requires n <= 0, ae >= 0;
        true
    } else if e == i128::MIN {
        assert(ae * n > i128::MAX) by (nonlinear_arith)
            requires n >= 1, ae == 0x8000_0000_0000_0000_0000_0000_0000_0000;
        false
    } else {
        let a = if e < 0 { -e } else { e };
        assert(a * n >= 0) by (nonlinear_arith) requires n >= 1, a >= 0;
        a.checked_mul(n).is_some()
    }
}

/// Whether `sign_fits(p, d, m)` holds.
fn sign_fits_exec(p: i128, d: i128, m: i128) -> (b: bool)
    requires
        2 <= p <= MOD_LIMIT,
    ensures
        b == sign_fits(p as int, d as int, m as int),
{
    let ghost ad = abs(d as int) as int;
    if d == i128::MIN {
        assert(ad * (p - 1) >= ad) by (nonlinear_arith) requires p >= 2, ad >= 0;
        return false;
    }
    if m == i128::MIN {
        assert(ad * (p - 1) >= 0) by (nonlinear_arith) requires p >= 2, ad >= 0;
        return false;
    }
    let a = if d < 0 { -d } else { d };
    let b = if m < 0 { -m } else { m };
    assert(a * (p - 1) >= 0) by (nonlinear_arith) requires p >= 2, a >= 0;
    match a.checked_mul(p - 1) {
        None => false,
        Some(x) => match x.checked_add(b) {
            None => false,
            Some(y) => y.checked_add(p).is_some(),
        },
    }
}

/// The bounds of modular addition.
fn add_ok(a: i128, b: i128, n: i128) -> (r: bool)
    ensures
        r == (rem_euclid_ok(a as int, n as int) && rem_euclid_ok(b as int, n as int) && (a as int)
            % (n as int) + (b as int) % (n as int) <= i128::MAX),
{
    if !rem_ok(a, n) || !rem_ok(b, n) {
        return false;
    }
    let ar = rem_euclid(a, n);
    let br = rem_euclid(b, n);
    ar.checked_add(br).is_some()
}

/// The bounds of modular subtraction.
fn sub_ok(a: i128, b: i128, n: i128) -> (r: bool)
    ensures
        r == (rem_euclid_ok(a as int, n as int) && rem_euclid_ok(b as int, n as int)
            && rem_euclid_ok((a as int) % (n as int) - (b as int) % (n as int), n as int)),
{
    if !rem_ok(a, n) || !rem_ok(b, n) {
        return false;
    }
    let ar = rem_euclid(a, n);
    let br = rem_euclid(b, n);
    rem_ok(ar - br, n)
}

/// The bounds of modular multiplication.
fn mul_ok(a: i128, b: i128, n: i128) -> (r: bool)
    ensures
        r == (rem_euclid_ok(a as int, n as int) && rem_euclid_ok(b as int, n as int) && ((a as int)
            % (n as int)) * ((b as int) % (n as int)) <= i128::MAX),
{
    if !rem_ok(a, n) || !rem_ok(b, n) {
        return false;
    }
    let ar = rem_euclid(a, n);
    let br = rem_euclid(b, n);
    mul_le_max(ar, br)
}

/// The bounds of modular exponentiation.
fn pow_ok(a: i128, e: i128, n: i128) -> (r: bool)
    ensures
        r == (e > i128::MIN && n <= MOD_LIMIT && (0 <= e <= TABLE_LIMIT ==> n != 0 && -MOD_LIMIT
            <= n) && (1 <= e <= TABLE_LIMIT ==> rem_euclid_ok(a as int, n as int))),
{
    e > i128::MIN && n <= MOD_LIMIT && (!(0 <= e && e <= TABLE_LIMIT) || (n != 0 && -MOD_LIMIT
        <= n)) && (!(1 <= e && e <= TABLE_LIMIT) || rem_ok(a, n))
}

/// The bound of the multiplicative inverse: the check product fits.
fn inv_mul_ok(a: i128, n: i128) -> (r: bool)
    ensures
        r == (coprime_mod(a as int, n as int) ==> (a as int) % (n as int) * inv_mod(
            a as int,
            n as int,
        ) <= i128::MAX),
{
    if n <= 0 {
        return true;
    }
    match mod_inv(a, n) {
        Ok(w) => {
            let ar = rem_euclid(a, n);
            mul_le_max(ar, w)
        },
        Err(_) => true,
    }
}

/// The bounds of RSA key generation.
fn keygen_ok(p: i128, q: i128, e: i128) -> (r: bool)
    ensures
        r == (p <= TRIAL_LIMIT && q <= TRIAL_LIMIT && e != i128::MIN && (spec_is_prime(p as int)
            && spec_is_prime(q as int) ==> p * q <= i128::MAX)),
{
    p <= TRIAL_LIMIT && q <= TRIAL_LIMIT && e != i128::MIN && (mul_le_max(p, q) || !(is_prime(p)
        && is_prime(q)))
}

/// Whether the affine point `(x, y)` lies within the curve bounds.
fn coord_in(x: i128, y: i128) -> (b: bool)
    ensures
        b == coord_ok(Point::Affine(x, y)),
{
    -EC_LIMIT <= x && x <= EC_LIMIT && -EC_LIMIT <= y && y <= EC_LIMIT
}

/// Whether the curve parameter and the modulus lie within the curve bounds.
fn params_in(a: i128, p: i128) -> (b: bool)
    ensures
        b == params_ok(a as int, p as int),
{
    -EC_LIMIT <= a && a <= EC_LIMIT && -EC_LIMIT <= p && p <= EC_LIMIT
}

/// Whether the discriminant `4a³ + 27b²` and its terms fit in `i128`.
fn disc_ok(a: i128, b: i128) -> (r: bool)
    requires
        -EC_LIMIT <= a <= EC_LIMIT,
    ensures
        r == disc_fits(a as int, b as int),
{
    assert(0 <= a * a <= EC_LIMIT * EC_LIMIT) by (nonlinear_arith)
        requires -EC_LIMIT <= a <= EC_LIMIT;
    let a2 = a * a;
    assert(4 * a * a * a == 4 * (a2 * a)) by (nonlinear_arith) requires a2 == a * a;
    let x = match a2.checked_mul(a) {
        None => {
            assert(!(i128::MIN < 4 * (a2 * a) <= i128::MAX)) by (nonlinear_arith)
                requires a2 * a > i128::MAX || a2 * a < i128::MIN;
            return false;
        },
        Some(a3) => match a3.checked_mul(4) {
            None => return false,
            Some(x) => x,
        },
    };
    if x == i128::MIN {
        return false;
    }
    assert(27 * b * b == 27 * (b * b)) by (nonlinear_arith);
    assert(b * b >= 0) by (nonlinear_arith);
    let y = match b.checked_mul(b) {
        None => return false,
        Some(bb) => match bb.checked_mul(27) {
            None => return false,
            Some(y) => y,
        },
    };
    x.checked_add(y).is_some()
}

/// The listed commands: name, parameter names (`?` marks an optional one) and description.
pub open spec fn command_table() -> Seq<(Seq<char>, Seq<Seq<char>>, Seq<char>)> {
    seq![
        ("mod.add"@, seq!["a"@, "b"@, "n"@], "Modulare Addition"@),
        ("mod.sub"@, seq!["a"@, "b"@, "n"@], "Modulare Subtraktion"@),
        ("mod.mul"@, seq!["a"@, "b"@, "n"@], "Modulare Multiplikation"@),
        ("mod.pow"@, seq!["a"@, "e"@, "n"@], "Schnelle Modulare Exponentiation"@),
        ("mod.inv_add"@, seq!["a"@, "n"@], "Additives Inverses"@),
        ("mod.inv_mul"@, seq!["a"@, "n"@], "Multiplikatives Inverses"@),
        ("mod.subgroup"@, seq!["g"@, "p"@], "Zyklische Untergruppe"@),
        ("mod.primitive_roots"@, seq!["p"@], "Primitive Wurzeln"@),
        ("rsa.keygen"@, seq!["p"@, "q"@, "e"@], "RSA-Schlüsselerzeugung"@),
        ("rsa.encrypt"@, seq!["n"@, "e"@, "m"@], "RSA-Verschlüsselung"@),
        ("rsa.decrypt"@, seq!["n"@, "d"@, "c"@], "RSA-Entschlüsselung"@),
        ("rsa.sign"@, seq!["n"@, "d"@, "m"@], "RSA-Signatur erzeugen"@),
        ("rsa.verify"@, seq!["n"@, "e"@, "m"@, "s"@], "RSA-Signatur prüfen"@),
        ("elgamal.encrypt"@, seq!["p"@, "g"@, "x"@, "m"@, "k"@], "ElGamal-Verschlüsselung"@),
        ("elgamal.decrypt"@, seq!["p"@, "x"@, "c1"@, "c2"@], "ElGamal-Entschlüsselung"@),
        ("elgamal.sign"@, seq!["p"@, "g"@, "d"@, "m"@, "k"@], "ElGamal-Signatur erzeugen"@),
        ("elgamal.verify"@, seq!["p"@, "g"@, "e"@, "m"@, "r"@, "s"@], "ElGamal-Signatur prüfen"@),
        ("dh.exchange"@, seq!["p"@, "g"@, "a"@, "b"@], "Diffie-Hellman"@),
        ("shamir.three_pass"@, seq!["p"@, "m"@, "a"@, "b"@], "Shamir Three-Pass"@),
        ("ecc.add"@, seq!["a"@, "b"@, "p"@, "px"@, "py"@, "qx"@, "qy"@], "ECC: Punktaddition"@),
        ("ecc.scalar"@, seq!["a"@, "b"@, "p"@, "k"@, "px"@, "py"@], "ECC: Skalarmultiplikation"@),
        ("fiat_shamir.round"@, seq!["n"@, "s"@, "k"@, "e"@], "Fiat-Shamir-Runde"@),
        ("bsgs"@, seq!["g"@, "h"@, "p"@], "Baby-Step-Giant-Step"@),
        ("pollard_rho.factor"@, seq!["n"@], "Pollard-Rho-Faktorisierung"@),
        ("pollard_rho.dlog"@, seq!["g"@, "h"@, "p"@], "Pollard-Rho-Logarithmus"@),
        ("fermat.factor"@, seq!["n"@], "Fermat-Faktorisierung"@),
        ("transposition.decrypt"@, seq!["text"@], "Spaltentransposition"@),
        ("pb.elgamal_mult_homomorph"@, seq!["p"@, "g"@, "e"@, "d"@, "a1"@, "b1"@, "a"@, "b"@], "Playbook: ElGamal Homomorphismus"@),
        ("pb.rsa_priv_from_pub_y"@, seq!["n"@, "e"@, "y"@, "phi?"@], "Playbook: RSA aus (n,e,y) → d"@),
        ("pb.dh_k_from_g_p_alpha_beta"@, seq!["g"@, "p"@, "alpha"@, "beta"@], "Playbook: DH K aus α,β"@),
        ("pb.elgamal_d_from_kpub"@, seq!["p"@, "g"@, "e"@], "Playbook: ElGamal d aus Kpub"@),
        ("pb.rsa_check_d"@, seq!["n"@, "e"@, "d"@, "y?"@], "Playbook: passt d zu Kpub?"@),
        ("pb.elgamal_sig_verify"@, seq!["p"@, "g"@, "e"@, "m"@, "r"@, "s"@], "Playbook: ElGamal-Signatur"@),
        ("pb.rsa_pcap_decrypt"@, seq!["n"@, "e"@, "y"@], "Playbook: RSA aus pcap"@),
        ("pb.elgamal_pcap_decrypt"@, seq!["p"@, "g"@, "e"@, "a"@, "b"@], "Playbook: ElGamal aus pcap"@),
        ("pb.dh_pcap_shared"@, seq!["p"@, "g"@, "alpha"@, "beta"@, "c?"@], "Playbook: DH aus pcap"@),
    ]
}

/// The names of the listed commands, in order.
pub open spec fn command_names() -> Seq<Seq<char>> {
    seq![
        "mod.add"@,
        "mod.sub"@,
        "mod.mul"@,
        "mod.pow"@,
        "mod.inv_add"@,
        "mod.inv_mul"@,
        "mod.subgroup"@,
        "mod.primitive_roots"@,
        "rsa.keygen"@,
        "rsa.encrypt"@,
        "rsa.decrypt"@,
        "rsa.sign"@,
        "rsa.verify"@,
        "elgamal.encrypt"@,
        "elgamal.decrypt"@,
        "elgamal.sign"@,
        "elgamal.verify"@,
        "dh.exchange"@,
        "shamir.three_pass"@,
        "ecc.add"@,
        "ecc.scalar"@,
        "fiat_shamir.round"@,
        "bsgs"@,
        "pollard_rho.factor"@,
        "pollard_rho.dlog"@,
        "fermat.factor"@,
        "transposition.decrypt"@,
        "pb.elgamal_mult_homomorph"@,
        "pb.rsa_priv_from_pub_y"@,
        "pb.dh_k_from_g_p_alpha_beta"@,
        "pb.elgamal_d_from_kpub"@,
        "pb.rsa_check_d"@,
        "pb.elgamal_sig_verify"@,
        "pb.rsa_pcap_decrypt"@,
        "pb.elgamal_pcap_decrypt"@,
        "pb.dh_pcap_shared"@,
    ]
}

/// The command is one of the listed names.
pub open spec fn listed(c: Seq<char>) -> bool {
    c == "mod.add"@
        || c == "mod.sub"@
        || c == "mod.mul"@
        || c == "mod.pow"@
        || c == "mod.inv_add"@
        || c == "mod.inv_mul"@
        || c == "mod.subgroup"@
        || c == "mod.primitive_roots"@
        || c == "rsa.keygen"@
        || c == "rsa.encrypt"@
        || c == "rsa.decrypt"@
        || c == "rsa.sign"@
        || c == "rsa.verify"@
        || c == "elgamal.encrypt"@
        || c == "elgamal.decrypt"@
        || c == "elgamal.sign"@
        || c == "elgamal.verify"@
        || c == "dh.exchange"@
        || c == "shamir.three_pass"@
        || c == "ecc.add"@
        || c == "ecc.scalar"@
        || c == "fiat_shamir.round"@
        || c == "bsgs"@
        || c == "pollard_rho.factor"@
        || c == "pollard_rho.dlog"@
        || c == "fermat.factor"@
        || c == "transposition.decrypt"@
        || c == "pb.elgamal_mult_homomorph"@
        || c == "pb.rsa_priv_from_pub_y"@
        || c == "pb.dh_k_from_g_p_alpha_beta"@
        || c == "pb.elgamal_d_from_kpub"@
        || c == "pb.rsa_check_d"@
        || c == "pb.elgamal_sig_verify"@
        || c == "pb.rsa_pcap_decrypt"@
        || c == "pb.elgamal_pcap_decrypt"@
        || c == "pb.dh_pcap_shared"@
}

/// What `run` gives for a command: a parameter that cannot be read refuses the
/// request with its message; otherwise the result is one that the command's
/// computation, called with the parameters read, may return; a name that is not
/// listed is refused.
pub open spec fn dispatch_post(c: Seq<char>, e: Seq<(String, ParamValue)>, r: CalcResult<Trace>) -> bool {
    if c == "mod.add"@ {
        match int_args(e, seq!["a"@, "b"@, "n"@]) {
            Ok(v) => call_ensures(crate::modulo::operations::add, (v[0] as i128, v[1] as i128, v[2] as i128), r),
            Err(m) => refused_with(r, m),
        }
    } else if c == "mod.sub"@ {
        match int_args(e, seq!["a"@, "b"@, "n"@]) {
            Ok(v) => call_ensures(crate::modulo::operations::sub, (v[0] as i128, v[1] as i128, v[2] as i128), r),
            Err(m) => refused_with(r, m),
        }
    } else if c == "mod.mul"@ {
        match int_args(e, seq!["a"@, "b"@, "n"@]) {
            Ok(v) => call_ensures(crate::modulo::operations::mul, (v[0] as i128, v[1] as i128, v[2] as i128), r),
            Err(m) => refused_with(r, m),
        }
    } else if c == "mod.pow"@ {
        match int_args(e, seq!["a"@, "e"@, "n"@]) {
            Ok(v) => call_ensures(crate::modulo::operations::pow, (v[0] as i128, v[1] as i128, v[2] as i128), r),
            Err(m) => refused_with(r, m),
        }
    } else if c == "mod.inv_add"@ {
        match int_args(e, seq!["a"@, "n"@]) {
            Ok(v) => call_ensures(crate::modulo::inverse_additive::additive_inverse, (v[0] as i128, v[1] as i128), r),
            Err(m) => refused_with(r, m),
        }
    } else if c == "mod.inv_mul"@ {
        match int_args(e, seq!["a"@, "n"@]) {
            Ok(v) => call_ensures(crate::modulo::inverse_multiplicative::multiplicative_inverse, (v[0] as i128, v[1] as i128), r),
            Err(m) => refused_with(r, m),
        }
    } else if c == "mod.subgroup"@ {
        match int_args(e, seq!["g"@, "p"@]) {
            Ok(v) => call_ensures(crate::modulo::cyclic_groups::subgroup, (v[0] as i128, v[1] as i128), r),
            Err(m) => refused_with(r, m),
        }
    } else if c == "mod.primitive_roots"@ {
        match int_args(e, seq!["p"@]) {
            Ok(v) => call_ensures(crate::modulo::cyclic_groups::primitive_roots, (v[0] as i128,), r),
            Err(m) => refused_with(r, m),
        }
    } else if c == "rsa.keygen"@ {
        match int_args(e, seq!["p"@, "q"@, "e"@]) {
            Ok(v) => call_ensures(crate::algorithms::rsa::keygen, (v[0] as i128, v[1] as i128, v[2] as i128), r),
            Err(m) => refused_with(r, m),
        }
    } else if c == "rsa.encrypt"@ {
        match int_args(e, seq!["n"@, "e"@, "m"@]) {
            Ok(v) => call_ensures(crate::algorithms::rsa::encrypt, (v[0] as i128, v[1] as i128, v[2] as i128), r),
            Err(m) => refused_with(r, m),
        }
    } else if c == "rsa.decrypt"@ {
        match int_args(e, seq!["n"@, "d"@, "c"@]) {
            Ok(v) => call_ensures(crate::algorithms::rsa::decrypt, (v[0] as i128, v[1] as i128, v[2] as i128), r),
            Err(m) => refused_with(r, m),
        }
    } else if c == "rsa.sign"@ {
        match int_args(e, seq!["n"@, "d"@, "m"@]) {
            Ok(v) => call_ensures(crate::algorithms::rsa_signature::sign, (v[0] as i128, v[1] as i128, v[2] as i128), r),
            Err(m) => refused_with(r, m),
        }
    } else if c == "rsa.verify"@ {
        match int_args(e, seq!["n"@, "e"@, "m"@, "s"@]) {
            Ok(v) => call_ensures(crate::algorithms::rsa_signature::verify, (v[0] as i128, v[1] as i128, v[2] as i128, v[3] as i128), r),
            Err(m) => refused_with(r, m),
        }
    } else if c == "elgamal.encrypt"@ {
        match int_args(e, seq!["p"@, "g"@, "x"@, "m"@, "k"@]) {
            Ok(v) => call_ensures(crate::algorithms::elgamal::encrypt, (v[0] as i128, v[1] as i128, v[2] as i128, v[3] as i128, v[4] as i128), r),
            Err(m) => refused_with(r, m),
        }
    } else if c == "elgamal.decrypt"@ {
        match int_args(e, seq!["p"@, "x"@, "c1"@, "c2"@]) {
            Ok(v) => call_ensures(crate::algorithms::elgamal::decrypt, (v[0] as i128, v[1] as i128, v[2] as i128, v[3] as i128), r),
            Err(m) => refused_with(r, m),
        }
    } else if c == "elgamal.sign"@ {
        match int_args(e, seq!["p"@, "g"@, "d"@, "m"@, "k"@]) {
            Ok(v) => call_ensures(crate::algorithms::elgamal_signature::sign, (v[0] as i128, v[1] as i128, v[2] as i128, v[3] as i128, v[4] as i128), r),
            Err(m) => refused_with(r, m),
        }
    } else if c == "elgamal.verify"@ {
        match int_args(e, seq!["p"@, "g"@, "e"@, "m"@, "r"@, "s"@]) {
            Ok(v) => call_ensures(crate::algorithms::elgamal_signature::verify, (v[0] as i128, v[1] as i128, v[2] as i128, v[3] as i128, v[4] as i128, v[5] as i128), r),
            Err(m) => refused_with(r, m),
        }
    } else if c == "dh.exchange"@ {
        match int_args(e, seq!["p"@, "g"@, "a"@, "b"@]) {
            Ok(v) => call_ensures(crate::algorithms::diffie_hellman::key_exchange, (v[0] as i128, v[1] as i128, v[2] as i128, v[3] as i128), r),
            Err(m) => refused_with(r, m),
        }
    } else if c == "shamir.three_pass"@ {
        match int_args(e, seq!["p"@, "m"@, "a"@, "b"@]) {
            Ok(v) => call_ensures(crate::algorithms::shamir_three_pass::run, (v[0] as i128, v[1] as i128, v[2] as i128, v[3] as i128), r),
            Err(m) => refused_with(r, m),
        }
    } else if c == "ecc.add"@ {
        match int_args(e, seq!["a"@, "b"@, "p"@, "px"@, "py"@, "qx"@, "qy"@]) {
            Ok(v) => call_ensures(crate::algorithms::ecc::add_trace, (v[0] as i128, v[1] as i128, v[2] as i128, Point::Affine(v[3] as i128, v[4] as i128), Point::Affine(v[5] as i128, v[6] as i128)), r),
            Err(m) => refused_with(r, m),
        }
    } else if c == "ecc.scalar"@ {
        match int_args(e, seq!["a"@, "b"@, "p"@, "k"@, "px"@, "py"@]) {
            Ok(v) => call_ensures(crate::algorithms::ecc::scalar_trace, (v[0] as i128, v[1] as i128, v[2] as i128, v[3] as i128, Point::Affine(v[4] as i128, v[5] as i128)), r),
            Err(m) => refused_with(r, m),
        }
    } else if c == "fiat_shamir.round"@ {
        match int_args(e, seq!["n"@, "s"@, "k"@, "e"@]) {
            Ok(v) => call_ensures(crate::algorithms::fiat_shamir::round, (v[0] as i128, v[1] as i128, v[2] as i128, v[3] as i128), r),
            Err(m) => refused_with(r, m),
        }
    } else if c == "bsgs"@ {
        match int_args(e, seq!["g"@, "h"@, "p"@]) {
            Ok(v) => call_ensures(crate::analysis::bsgs::solve, (v[0] as i128, v[1] as i128, v[2] as i128), r),
            Err(m) => refused_with(r, m),
        }
    } else if c == "pollard_rho.factor"@ {
        match int_args(e, seq!["n"@]) {
            Ok(v) => call_ensures(crate::analysis::pollard_rho_factor::factor, (v[0] as i128,), r),
            Err(m) => refused_with(r, m),
        }
    } else if c == "pollard_rho.dlog"@ {
        match int_args(e, seq!["g"@, "h"@, "p"@]) {
            Ok(v) => call_ensures(crate::analysis::pollard_rho_dlog::solve, (v[0] as i128, v[1] as i128, v[2] as i128), r),
            Err(m) => refused_with(r, m),
        }
    } else if c == "fermat.factor"@ {
        match int_args(e, seq!["n"@]) {
            Ok(v) => call_ensures(crate::analysis::fermat_factorization::factor, (v[0] as i128,), r),
            Err(m) => refused_with(r, m),
        }
    } else if c == "transposition.decrypt"@ {
        match text_arg(e, "text"@) {
            Ok(s) => exists|t: &str| t@ == s && #[trigger] call_ensures(crate::analysis::columnar_transposition::decrypt, (t,), r),
            Err(m) => refused_with(r, m),
        }
    } else if c == "pb.elgamal_mult_homomorph"@ {
        match int_args(e, seq!["p"@, "g"@, "e"@, "d"@, "a1"@, "b1"@, "a"@, "b"@]) {
            Ok(v) => call_ensures(crate::playbooks::elgamal_mult_homomorph::run, (v[0] as i128, v[1] as i128, v[2] as i128, v[3] as i128, v[4] as i128, v[5] as i128, v[6] as i128, v[7] as i128), r),
            Err(m) => refused_with(r, m),
        }
    } else if c == "pb.rsa_priv_from_pub_y"@ {
        match int_args(e, seq!["n"@, "e"@, "y"@]) {
            Ok(v) => match opt_arg(e, "phi"@) {
                Ok(o) => call_ensures(crate::playbooks::rsa_geg_pub_enc_ges_priv_plain::run, (v[0] as i128, v[1] as i128, v[2] as i128, opt_i128(o)), r),
                Err(m) => refused_with(r, m),
            },
            Err(m) => refused_with(r, m),
        }
    } else if c == "pb.dh_k_from_g_p_alpha_beta"@ {
        match int_args(e, seq!["g"@, "p"@, "alpha"@, "beta"@]) {
            Ok(v) => call_ensures(crate::playbooks::dh_geg_g_p_alpha_beta_ges_k::run, (v[0] as i128, v[1] as i128, v[2] as i128, v[3] as i128), r),
            Err(m) => refused_with(r, m),
        }
    } else if c == "pb.elgamal_d_from_kpub"@ {
        match int_args(e, seq!["p"@, "g"@, "e"@]) {
            Ok(v) => call_ensures(crate::playbooks::elgamal_geg_kpub_ges_priv_verf::run, (v[0] as i128, v[1] as i128, v[2] as i128), r),
            Err(m) => refused_with(r, m),
        }
    } else if c == "pb.rsa_check_d"@ {
        match int_args(e, seq!["n"@, "e"@, "d"@]) {
            Ok(v) => match opt_arg(e, "y"@) {
                Ok(o) => call_ensures(crate::playbooks::rsa_geg_kpub_kpriv_encm_ges_kpriv_to_kpub::run, (v[0] as i128, v[1] as i128, v[2] as i128, opt_i128(o)), r),
                Err(m) => refused_with(r, m),
            },
            Err(m) => refused_with(r, m),
        }
    } else if c == "pb.elgamal_sig_verify"@ {
        match int_args(e, seq!["p"@, "g"@, "e"@, "m"@, "r"@, "s"@]) {
            Ok(v) => call_ensures(crate::playbooks::elgamal_geg_sig_kpub_ges_legitsig::run, (v[0] as i128, v[1] as i128, v[2] as i128, v[3] as i128, v[4] as i128, v[5] as i128), r),
            Err(m) => refused_with(r, m),
        }
    } else if c == "pb.rsa_pcap_decrypt"@ {
        match int_args(e, seq!["n"@, "e"@, "y"@]) {
            Ok(v) => call_ensures(crate::playbooks::rsa_geg_kpub_ges_kpriv_plain::run, (v[0] as i128, v[1] as i128, v[2] as i128), r),
            Err(m) => refused_with(r, m),
        }
    } else if c == "pb.elgamal_pcap_decrypt"@ {
        match int_args(e, seq!["p"@, "g"@, "e"@, "a"@, "b"@]) {
            Ok(v) => call_ensures(crate::playbooks::elgamal_geg_kpub_ges_kpriv::run, (v[0] as i128, v[1] as i128, v[2] as i128, v[3] as i128, v[4] as i128), r),
            Err(m) => refused_with(r, m),
        }
    } else if c == "pb.dh_pcap_shared"@ {
        match int_args(e, seq!["p"@, "g"@, "alpha"@, "beta"@]) {
            Ok(v) => match opt_arg(e, "c"@) {
                Ok(o) => call_ensures(crate::playbooks::dh_ges_schluessel::run, (v[0] as i128, v[1] as i128, v[2] as i128, v[3] as i128, opt_i128(o)), r),
                Err(m) => refused_with(r, m),
            },
            Err(m) => refused_with(r, m),
        }
    } else {
        refused_with(r, unknown_message(c))
    }
}

/// The parameters that can be read lie within what the command's computation
/// handles (its bounds on magnitudes and moduli).
pub open spec fn dispatch_in_range(c: Seq<char>, e: Seq<(String, ParamValue)>) -> bool {
    if c == "mod.add"@ {
        match int_args(e, seq!["a"@, "b"@, "n"@]) {
            Ok(v) => rem_euclid_ok(v[0], v[2]) && rem_euclid_ok(v[1], v[2]) && v[0] % v[2] + v[1] % v[2] <= i128::MAX,
            Err(_) => true,
        }
    } else if c == "mod.sub"@ {
        match int_args(e, seq!["a"@, "b"@, "n"@]) {
            Ok(v) => rem_euclid_ok(v[0], v[2]) && rem_euclid_ok(v[1], v[2]) && rem_euclid_ok(v[0] % v[2] - v[1] % v[2], v[2]),
            Err(_) => true,
        }
    } else if c == "mod.mul"@ {
        match int_args(e, seq!["a"@, "b"@, "n"@]) {
            Ok(v) => rem_euclid_ok(v[0], v[2]) && rem_euclid_ok(v[1], v[2]) && (v[0] % v[2]) * (v[1] % v[2]) <= i128::MAX,
            Err(_) => true,
        }
    } else if c == "mod.pow"@ {
        match int_args(e, seq!["a"@, "e"@, "n"@]) {
            Ok(v) => v[1] > i128::MIN && v[2] <= MOD_LIMIT && (0 <= v[1] <= TABLE_LIMIT ==> v[2] != 0 && -MOD_LIMIT <= v[2]) && (1 <= v[1] <= TABLE_LIMIT ==> rem_euclid_ok(v[0], v[2])),
            Err(_) => true,
        }
    } else if c == "mod.inv_add"@ {
        match int_args(e, seq!["a"@, "n"@]) {
            Ok(v) => true,
            Err(_) => true,
        }
    } else if c == "mod.inv_mul"@ {
        match int_args(e, seq!["a"@, "n"@]) {
            Ok(v) => coprime_mod(v[0], v[1]) ==> v[0] % v[1] * inv_mod(v[0], v[1]) <= i128::MAX,
            Err(_) => true,
        }
    } else if c == "mod.subgroup"@ {
        match int_args(e, seq!["g"@, "p"@]) {
            Ok(v) => v[1] <= TRIAL_LIMIT && (spec_is_prime(v[1]) ==> v[1] <= MOD_LIMIT && v[0] != i128::MIN),
            Err(_) => true,
        }
    } else if c == "mod.primitive_roots"@ {
        match int_args(e, seq!["p"@]) {
            Ok(v) => v[0] <= TRIAL_LIMIT && (spec_is_prime(v[0]) ==> v[0] <= MOD_LIMIT),
            Err(_) => true,
        }
    } else if c == "rsa.keygen"@ {
        match int_args(e, seq!["p"@, "q"@, "e"@]) {
            Ok(v) => v[0] <= TRIAL_LIMIT && v[1] <= TRIAL_LIMIT && v[2] != i128::MIN && (spec_is_prime(v[0]) && spec_is_prime(v[1]) ==> v[0] * v[1] <= i128::MAX),
            Err(_) => true,
        }
    } else if c == "rsa.encrypt"@ {
        match int_args(e, seq!["n"@, "e"@, "m"@]) {
            Ok(v) => 0 <= v[2] < v[0] ==> v[0] <= MOD_LIMIT && v[1] > i128::MIN,
            Err(_) => true,
        }
    } else if c == "rsa.decrypt"@ {
        match int_args(e, seq!["n"@, "d"@, "c"@]) {
            Ok(v) => v[0] <= MOD_LIMIT && v[1] > i128::MIN,
            Err(_) => true,
        }
    } else if c == "rsa.sign"@ {
        match int_args(e, seq!["n"@, "d"@, "m"@]) {
            Ok(v) => 0 <= v[2] < v[0] ==> v[0] <= MOD_LIMIT && v[1] > i128::MIN,
            Err(_) => true,
        }
    } else if c == "rsa.verify"@ {
        match int_args(e, seq!["n"@, "e"@, "m"@, "s"@]) {
            Ok(v) => 0 <= v[2] < v[0] && 0 <= v[3] < v[0] ==> v[0] <= MOD_LIMIT && v[1] > i128::MIN,
            Err(_) => true,
        }
    } else if c == "elgamal.encrypt"@ {
        match int_args(e, seq!["p"@, "g"@, "x"@, "m"@, "k"@]) {
            Ok(v) => v[0] <= TRIAL_LIMIT && (spec_is_prime(v[0]) ==> v[0] <= MOD_LIMIT && v[2] > i128::MIN && v[4] > i128::MIN),
            Err(_) => true,
        }
    } else if c == "elgamal.decrypt"@ {
        match int_args(e, seq!["p"@, "x"@, "c1"@, "c2"@]) {
            Ok(v) => v[0] <= MOD_LIMIT && v[1] > i128::MIN && -MOD_LIMIT < v[3] < MOD_LIMIT,
            Err(_) => true,
        }
    } else if c == "elgamal.sign"@ {
        match int_args(e, seq!["p"@, "g"@, "d"@, "m"@, "k"@]) {
            Ok(v) => v[0] <= TRIAL_LIMIT && (spec_is_prime(v[0]) ==> v[0] <= MOD_LIMIT && sign_fits(v[0], v[2], v[3])),
            Err(_) => true,
        }
    } else if c == "elgamal.verify"@ {
        match int_args(e, seq!["p"@, "g"@, "e"@, "m"@, "r"@, "s"@]) {
            Ok(v) => v[0] <= TRIAL_LIMIT && (spec_is_prime(v[0]) && 0 < v[4] < v[0] && 0 < v[5] < v[0] - 1 ==> v[0] <= MOD_LIMIT && v[3] > i128::MIN),
            Err(_) => true,
        }
    } else if c == "dh.exchange"@ {
        match int_args(e, seq!["p"@, "g"@, "a"@, "b"@]) {
            Ok(v) => v[0] <= TRIAL_LIMIT && (spec_is_prime(v[0]) ==> v[0] <= MOD_LIMIT && v[2] > i128::MIN && v[3] > i128::MIN),
            Err(_) => true,
        }
    } else if c == "shamir.three_pass"@ {
        match int_args(e, seq!["p"@, "m"@, "a"@, "b"@]) {
            Ok(v) => v[0] <= TRIAL_LIMIT && (spec_is_prime(v[0]) ==> v[0] <= MOD_LIMIT && v[2] > i128::MIN && v[3] > i128::MIN),
            Err(_) => true,
        }
    } else if c == "ecc.add"@ {
        match int_args(e, seq!["a"@, "b"@, "p"@, "px"@, "py"@, "qx"@, "qy"@]) {
            Ok(v) => coord_ok(Point::Affine(v[3] as i128, v[4] as i128)) && coord_ok(Point::Affine(v[5] as i128, v[6] as i128)) && params_ok(v[0], v[2]) && disc_fits(v[0], v[1]),
            Err(_) => true,
        }
    } else if c == "ecc.scalar"@ {
        match int_args(e, seq!["a"@, "b"@, "p"@, "k"@, "px"@, "py"@]) {
            Ok(v) => coord_ok(Point::Affine(v[4] as i128, v[5] as i128)) && params_ok(v[0], v[2]) && disc_fits(v[0], v[1]) && v[3] > i128::MIN,
            Err(_) => true,
        }
    } else if c == "fiat_shamir.round"@ {
        match int_args(e, seq!["n"@, "s"@, "k"@, "e"@]) {
            Ok(v) => (v[3] == 0 || v[3] == 1 ==> v[0] <= MOD_LIMIT) && (v[3] == 1 && v[0] > 0 ==> i128::MIN <= v[2] * v[1] <= i128::MAX),
            Err(_) => true,
        }
    } else if c == "bsgs"@ {
        match int_args(e, seq!["g"@, "h"@, "p"@]) {
            Ok(v) => v[2] <= TRIAL_LIMIT && (spec_is_prime(v[2]) ==> v[2] <= MOD_LIMIT && (v[2] - 1) * abs(v[0]) <= i128::MAX),
            Err(_) => true,
        }
    } else if c == "pollard_rho.factor"@ {
        match int_args(e, seq!["n"@]) {
            Ok(v) => v[0] % 2 != 0 ==> v[0] <= MOD_LIMIT,
            Err(_) => true,
        }
    } else if c == "pollard_rho.dlog"@ {
        match int_args(e, seq!["g"@, "h"@, "p"@]) {
            Ok(v) => v[2] <= TRIAL_LIMIT && (spec_is_prime(v[2]) ==> v[2] <= MOD_LIMIT && (v[2] - 1) * abs(v[0]) <= i128::MAX && (v[2] - 1) * abs(v[1]) <= i128::MAX),
            Err(_) => true,
        }
    } else if c == "fermat.factor"@ {
        match int_args(e, seq!["n"@]) {
            Ok(v) => v[0] <= TRIAL_LIMIT,
            Err(_) => true,
        }
    } else if c == "pb.elgamal_mult_homomorph"@ {
        match int_args(e, seq!["p"@, "g"@, "e"@, "d"@, "a1"@, "b1"@, "a"@, "b"@]) {
            Ok(v) => v[0] <= TRIAL_LIMIT && (spec_is_prime(v[0]) ==> v[0] <= MOD_LIMIT && v[3] > i128::MIN && (v[0] - 1) * abs(v[5]) <= i128::MAX && (v[0] - 1) * abs(v[6]) <= i128::MAX && (v[0] - 1) * abs(v[7]) <= i128::MAX),
            Err(_) => true,
        }
    } else if c == "pb.rsa_priv_from_pub_y"@ {
        match int_args(e, seq!["n"@, "e"@, "y"@]) {
            Ok(v) => 1 < v[0] && 0 <= v[2] < v[0] ==> v[0] <= MOD_LIMIT && abs(v[1]) * v[0] <= i128::MAX,
            Err(_) => true,
        }
    } else if c == "pb.dh_k_from_g_p_alpha_beta"@ {
        match int_args(e, seq!["g"@, "p"@, "alpha"@, "beta"@]) {
            Ok(v) => v[1] <= TRIAL_LIMIT && (spec_is_prime(v[1]) ==> v[1] <= MOD_LIMIT && (v[1] - 1) * abs(v[0]) <= i128::MAX),
            Err(_) => true,
        }
    } else if c == "pb.elgamal_d_from_kpub"@ {
        match int_args(e, seq!["p"@, "g"@, "e"@]) {
            Ok(v) => v[0] <= TRIAL_LIMIT && (spec_is_prime(v[0]) ==> v[0] <= MOD_LIMIT && (v[0] - 1) * abs(v[1]) <= i128::MAX),
            Err(_) => true,
        }
    } else if c == "pb.rsa_check_d"@ {
        match int_args(e, seq!["n"@, "e"@, "d"@]) {
            Ok(v) => match opt_arg(e, "y"@) {
                Ok(o) => key_check_fits(v[0], v[1], v[2], opt_i128(o)),
                Err(_) => true,
            },
            Err(_) => true,
        }
    } else if c == "pb.elgamal_sig_verify"@ {
        match int_args(e, seq!["p"@, "g"@, "e"@, "m"@, "r"@, "s"@]) {
            Ok(v) => v[0] <= TRIAL_LIMIT && (spec_is_prime(v[0]) ==> v[0] <= MOD_LIMIT && v[3] > i128::MIN),
            Err(_) => true,
        }
    } else if c == "pb.rsa_pcap_decrypt"@ {
        match int_args(e, seq!["n"@, "e"@, "y"@]) {
            Ok(v) => 1 < v[0] && 0 <= v[2] < v[0] ==> v[0] <= MOD_LIMIT && abs(v[1]) * v[0] <= i128::MAX,
            Err(_) => true,
        }
    } else if c == "pb.elgamal_pcap_decrypt"@ {
        match int_args(e, seq!["p"@, "g"@, "e"@, "a"@, "b"@]) {
            Ok(v) => v[0] <= TRIAL_LIMIT && (spec_is_prime(v[0]) ==> v[0] <= MOD_LIMIT && (v[0] - 1) * abs(v[1]) <= i128::MAX),
            Err(_) => true,
        }
    } else if c == "pb.dh_pcap_shared"@ {
        match int_args(e, seq!["p"@, "g"@, "alpha"@, "beta"@]) {
            Ok(v) => v[0] <= TRIAL_LIMIT && (spec_is_prime(v[0]) ==> v[0] <= MOD_LIMIT && (v[0] - 1) * abs(v[1]) <= i128::MAX),
            Err(_) => true,
        }
    } else {
        true
    }
}

/// The listed commands with their parameters and descriptions.
pub fn commands() -> (r: &'static [CommandSpec])
    ensures
        r@.map_values(|s: CommandSpec| (s.name@, s.params@.map_values(|k: &str| k@), s.description@))
            == command_table(),
{
    let r: &'static [CommandSpec] = &[
        CommandSpec {
            name: "mod.add",
            params: &["a", "b", "n"],
            description: "Modulare Addition",
        },
        CommandSpec {
            name: "mod.sub",
            params: &["a", "b", "n"],
            description: "Modulare Subtraktion",
        },
        CommandSpec {
            name: "mod.mul",
            params: &["a", "b", "n"],
            description: "Modulare Multiplikation",
        },
        CommandSpec {
            name: "mod.pow",
            params: &["a", "e", "n"],
            description: "Schnelle Modulare Exponentiation",
        },
        CommandSpec {
            name: "mod.inv_add",
            params: &["a", "n"],
            description: "Additives Inverses",
        },
        CommandSpec {
            name: "mod.inv_mul",
            params: &["a", "n"],
            description: "Multiplikatives Inverses",
        },
        CommandSpec {
            name: "mod.subgroup",
            params: &["g", "p"],
            description: "Zyklische Untergruppe",
        },
        CommandSpec {
            name: "mod.primitive_roots",
            params: &["p"],
            description: "Primitive Wurzeln",
        },
        CommandSpec {
            name: "rsa.keygen",
            params: &["p", "q", "e"],
            description: "RSA-Schlüsselerzeugung",
        },
        CommandSpec {
            name: "rsa.encrypt",
            params: &["n", "e", "m"],
            description: "RSA-Verschlüsselung",
        },
        CommandSpec {
            name: "rsa.decrypt",
            params: &["n", "d", "c"],
            description: "RSA-Entschlüsselung",
        },
        CommandSpec {
            name: "rsa.sign",
            params: &["n", "d", "m"],
            description: "RSA-Signatur erzeugen",
        },
        CommandSpec {
            name: "rsa.verify",
            params: &["n", "e", "m", "s"],
            description: "RSA-Signatur prüfen",
        },
        CommandSpec {
            name: "elgamal.encrypt",
            params: &["p", "g", "x", "m", "k"],
            description: "ElGamal-Verschlüsselung",
        },
        CommandSpec {
            name: "elgamal.decrypt",
            params: &["p", "x", "c1", "c2"],
            description: "ElGamal-Entschlüsselung",
        },
        CommandSpec {
            name: "elgamal.sign",
            params: &["p", "g", "d", "m", "k"],
            description: "ElGamal-Signatur erzeugen",
        },
        CommandSpec {
            name: "elgamal.verify",
            params: &["p", "g", "e", "m", "r", "s"],
            description: "ElGamal-Signatur prüfen",
        },
        CommandSpec {
            name: "dh.exchange",
            params: &["p", "g", "a", "b"],
            description: "Diffie-Hellman",
        },
        CommandSpec {
            name: "shamir.three_pass",
            params: &["p", "m", "a", "b"],
            description: "Shamir Three-Pass",
        },
        CommandSpec {
            name: "ecc.add",
            params: &["a", "b", "p", "px", "py", "qx", "qy"],
            description: "ECC: Punktaddition",
        },
        CommandSpec {
            name: "ecc.scalar",
            params: &["a", "b", "p", "k", "px", "py"],
            description: "ECC: Skalarmultiplikation",
        },
        CommandSpec {
            name: "fiat_shamir.round",
            params: &["n", "s", "k", "e"],
            description: "Fiat-Shamir-Runde",
        },
        CommandSpec {
            name: "bsgs",
            params: &["g", "h", "p"],
            description: "Baby-Step-Giant-Step",
        },
        CommandSpec {
            name: "pollard_rho.factor",
            params: &["n"],
            description: "Pollard-Rho-Faktorisierung",
        },
        CommandSpec {
            name: "pollard_rho.dlog",
            params: &["g", "h", "p"],
            description: "Pollard-Rho-Logarithmus",
        },
        CommandSpec {
            name: "fermat.factor",
            params: &["n"],
            description: "Fermat-Faktorisierung",
        },
        CommandSpec {
            name: "transposition.decrypt",
            params: &["text"],
            description: "Spaltentransposition",
        },
        CommandSpec {
            name: "pb.elgamal_mult_homomorph",
            params: &["p", "g", "e", "d", "a1", "b1", "a", "b"],
            description: "Playbook: ElGamal Homomorphismus",
        },
        CommandSpec {
            name: "pb.rsa_priv_from_pub_y",
            params: &["n", "e", "y", "phi?"],
            description: "Playbook: RSA aus (n,e,y) → d",
        },
        CommandSpec {
            name: "pb.dh_k_from_g_p_alpha_beta",
            params: &["g", "p", "alpha", "beta"],
            description: "Playbook: DH K aus α,β",
        },
        CommandSpec {
            name: "pb.elgamal_d_from_kpub",
            params: &["p", "g", "e"],
            description: "Playbook: ElGamal d aus Kpub",
        },
        CommandSpec {
            name: "pb.rsa_check_d",
            params: &["n", "e", "d", "y?"],
            description: "Playbook: passt d zu Kpub?",
        },
        CommandSpec {
            name: "pb.elgamal_sig_verify",
            params: &["p", "g", "e", "m", "r", "s"],
            description: "Playbook: ElGamal-Signatur",
        },
        CommandSpec {
            name: "pb.rsa_pcap_decrypt",
            params: &["n", "e", "y"],
            description: "Playbook: RSA aus pcap",
        },
        CommandSpec {
            name: "pb.elgamal_pcap_decrypt",
            params: &["p", "g", "e", "a", "b"],
            description: "Playbook: ElGamal aus pcap",
        },
        CommandSpec {
            name: "pb.dh_pcap_shared",
            params: &["p", "g", "alpha", "beta", "c?"],
            description: "Playbook: DH aus pcap",
        },
    ];
    assert(r@.map_values(|s: CommandSpec| (s.name@, s.params@.map_values(|k: &str| k@), s.description@))
        =~~= command_table());
    r
}

/// A name is among `command_names()` exactly when it is one of the listed literals.
proof fn lemma_listed(c: Seq<char>)
    ensures
        command_names().contains(c) <==> listed(c),
{
    let names = command_names();
    assert(names[0] == "mod.add"@);
    assert(names[1] == "mod.sub"@);
    assert(names[2] == "mod.mul"@);
    assert(names[3] == "mod.pow"@);
    assert(names[4] == "mod.inv_add"@);
    assert(names[5] == "mod.inv_mul"@);
    assert(names[6] == "mod.subgroup"@);
    assert(names[7] == "mod.primitive_roots"@);
    assert(names[8] == "rsa.keygen"@);
    assert(names[9] == "rsa.encrypt"@);
    assert(names[10] == "rsa.decrypt"@);
    assert(names[11] == "rsa.sign"@);
    assert(names[12] == "rsa.verify"@);
    assert(names[13] == "elgamal.encrypt"@);
    assert(names[14] == "elgamal.decrypt"@);
    assert(names[15] == "elgamal.sign"@);
    assert(names[16] == "elgamal.verify"@);
    assert(names[17] == "dh.exchange"@);
    assert(names[18] == "shamir.three_pass"@);
    assert(names[19] == "ecc.add"@);
    assert(names[20] == "ecc.scalar"@);
    assert(names[21] == "fiat_shamir.round"@);
    assert(names[22] == "bsgs"@);
    assert(names[23] == "pollard_rho.factor"@);
    assert(names[24] == "pollard_rho.dlog"@);
    assert(names[25] == "fermat.factor"@);
    assert(names[26] == "transposition.decrypt"@);
    assert(names[27] == "pb.elgamal_mult_homomorph"@);
    assert(names[28] == "pb.rsa_priv_from_pub_y"@);
    assert(names[29] == "pb.dh_k_from_g_p_alpha_beta"@);
    assert(names[30] == "pb.elgamal_d_from_kpub"@);
    assert(names[31] == "pb.rsa_check_d"@);
    assert(names[32] == "pb.elgamal_sig_verify"@);
    assert(names[33] == "pb.rsa_pcap_decrypt"@);
    assert(names[34] == "pb.elgamal_pcap_decrypt"@);
    assert(names[35] == "pb.dh_pcap_shared"@);
    assert forall|j: int| 0 <= j < names.len() implies listed(#[trigger] names[j]) by {
        assert(j == 0 || j == 1 || j == 2 || j == 3 || j == 4 || j == 5 || j == 6 || j == 7 || j == 8 || j == 9 || j == 10 || j == 11 || j == 12 || j == 13 || j == 14 || j == 15 || j == 16 || j == 17 || j == 18 || j == 19 || j == 20 || j == 21 || j == 22 || j == 23 || j == 24 || j == 25 || j == 26 || j == 27 || j == 28 || j == 29 || j == 30 || j == 31 || j == 32 || j == 33 || j == 34 || j == 35);
    }
    if listed(c) {
        assert(exists|j: int| 0 <= j < names.len() && names[j] == c);
    }
}

/// The names in the command table are `command_names()`.
pub proof fn lemma_table_names()
    ensures
        command_table().map_values(|t: (Seq<char>, Seq<Seq<char>>, Seq<char>)| t.0) == command_names(),
{
    assert(command_table().map_values(|t: (Seq<char>, Seq<Seq<char>>, Seq<char>)| t.0) =~= command_names());
}

/// Only listed commands run: for a name that `commands()` does not list, the
/// outcome is the refusal "Unbekanntes Kommando", whatever the parameters.
pub proof fn lemma_unlisted_refused(c: Seq<char>, e: Seq<(String, ParamValue)>, r: CalcResult<Trace>)
    requires
        dispatch_post(c, e, r),
        !command_names().contains(c),
    ensures
        refused_with(r, unknown_message(c)),
{
    lemma_listed(c);
}

/// Runs `command` on `params`: reads the command's parameters in their listed
/// order and hands them to its computation. A name that is not listed is refused.
#[verifier::rlimit(50)]
pub fn run(command: &str, params: &Params) -> (r: CalcResult<Trace>)
    requires
        dispatch_in_range(command@, params.entries@),
    ensures
        dispatch_post(command@, params.entries@, r),
        !command_names().contains(command@) ==> refused_with(r, unknown_message(command@)),
{
    proof {
        lemma_listed(command@);
    }
    if text_eq(command, "mod.add") {
        let keys: &[&str] = &["a", "b", "n"];
        assert(keys@.map_values(|k: &str| k@) =~= seq!["a"@, "b"@, "n"@]);
        let v = match int_args_of(params, keys) {
            Ok(v) => v,
            Err(e) => return Err(e),
        };
        let f = crate::modulo::operations::add;
        return f(v[0], v[1], v[2]);
    }
    if text_eq(command, "mod.sub") {
        let keys: &[&str] = &["a", "b", "n"];
        assert(keys@.map_values(|k: &str| k@) =~= seq!["a"@, "b"@, "n"@]);
        let v = match int_args_of(params, keys) {
            Ok(v) => v,
            Err(e) => return Err(e),
        };
        let f = crate::modulo::operations::sub;
        return f(v[0], v[1], v[2]);
    }
    if text_eq(command, "mod.mul") {
        let keys: &[&str] = &["a", "b", "n"];
        assert(keys@.map_values(|k: &str| k@) =~= seq!["a"@, "b"@, "n"@]);
        let v = match int_args_of(params, keys) {
            Ok(v) => v,
            Err(e) => return Err(e),
        };
        let f = crate::modulo::operations::mul;
        return f(v[0], v[1], v[2]);
    }
    if text_eq(command, "mod.pow") {
        let keys: &[&str] = &["a", "e", "n"];
        assert(keys@.map_values(|k: &str| k@) =~= seq!["a"@, "e"@, "n"@]);
        let v = match int_args_of(params, keys) {
            Ok(v) => v,
            Err(e) => return Err(e),
        };
        let f = crate::modulo::operations::pow;
        return f(v[0], v[1], v[2]);
    }
    if text_eq(command, "mod.inv_add") {
        let keys: &[&str] = &["a", "n"];
        assert(keys@.map_values(|k: &str| k@) =~= seq!["a"@, "n"@]);
        let v = match int_args_of(params, keys) {
            Ok(v) => v,
            Err(e) => return Err(e),
        };
        let f = crate::modulo::inverse_additive::additive_inverse;
        return f(v[0], v[1]);
    }
    if text_eq(command, "mod.inv_mul") {
        let keys: &[&str] = &["a", "n"];
        assert(keys@.map_values(|k: &str| k@) =~= seq!["a"@, "n"@]);
        let v = match int_args_of(params, keys) {
            Ok(v) => v,
            Err(e) => return Err(e),
        };
        let f = crate::modulo::inverse_multiplicative::multiplicative_inverse;
        return f(v[0], v[1]);
    }
    if text_eq(command, "mod.subgroup") {
        let keys: &[&str] = &["g", "p"];
        assert(keys@.map_values(|k: &str| k@) =~= seq!["g"@, "p"@]);
        let v = match int_args_of(params, keys) {
            Ok(v) => v,
            Err(e) => return Err(e),
        };
        let f = crate::modulo::cyclic_groups::subgroup;
        return f(v[0], v[1]);
    }
    if text_eq(command, "mod.primitive_roots") {
        let keys: &[&str] = &["p"];
        assert(keys@.map_values(|k: &str| k@) =~= seq!["p"@]);
        let v = match int_args_of(params, keys) {
            Ok(v) => v,
            Err(e) => return Err(e),
        };
        let f = crate::modulo::cyclic_groups::primitive_roots;
        return f(v[0],);
    }
    if text_eq(command, "rsa.keygen") {
        let keys: &[&str] = &["p", "q", "e"];
        assert(keys@.map_values(|k: &str| k@) =~= seq!["p"@, "q"@, "e"@]);
        let v = match int_args_of(params, keys) {
            Ok(v) => v,
            Err(e) => return Err(e),
        };
        let f = crate::algorithms::rsa::keygen;
        return f(v[0], v[1], v[2]);
    }
    if text_eq(command, "rsa.encrypt") {
        let keys: &[&str] = &["n", "e", "m"];
        assert(keys@.map_values(|k: &str| k@) =~= seq!["n"@, "e"@, "m"@]);
        let v = match int_args_of(params, keys) {
            Ok(v) => v,
            Err(e) => return Err(e),
        };
        let f = crate::algorithms::rsa::encrypt;
        return f(v[0], v[1], v[2]);
    }
    if text_eq(command, "rsa.decrypt") {
        let keys: &[&str] = &["n", "d", "c"];
        assert(keys@.map_values(|k: &str| k@) =~= seq!["n"@, "d"@, "c"@]);
        let v = match int_args_of(params, keys) {
            Ok(v) => v,
            Err(e) => return Err(e),
        };
        let f = crate::algorithms::rsa::decrypt;
        return f(v[0], v[1], v[2]);
    }
    if text_eq(command, "rsa.sign") {
        let keys: &[&str] = &["n", "d", "m"];
        assert(keys@.map_values(|k: &str| k@) =~= seq!["n"@, "d"@, "m"@]);
        let v = match int_args_of(params, keys) {
            Ok(v) => v,
            Err(e) => return Err(e),
        };
        let f = crate::algorithms::rsa_signature::sign;
        return f(v[0], v[1], v[2]);
    }
    if text_eq(command, "rsa.verify") {
        let keys: &[&str] = &["n", "e", "m", "s"];
        assert(keys@.map_values(|k: &str| k@) =~= seq!["n"@, "e"@, "m"@, "s"@]);
        let v = match int_args_of(params, keys) {
            Ok(v) => v,
            Err(e) => return Err(e),
        };
        let f = crate::algorithms::rsa_signature::verify;
        return f(v[0], v[1], v[2], v[3]);
    }
    if text_eq(command, "elgamal.encrypt") {
        let keys: &[&str] = &["p", "g", "x", "m", "k"];
        assert(keys@.map_values(|k: &str| k@) =~= seq!["p"@, "g"@, "x"@, "m"@, "k"@]);
        let v = match int_args_of(params, keys) {
            Ok(v) => v,
            Err(e) => return Err(e),
        };
        let f = crate::algorithms::elgamal::encrypt;
        return f(v[0], v[1], v[2], v[3], v[4]);
    }
    if text_eq(command, "elgamal.decrypt") {
        let keys: &[&str] = &["p", "x", "c1", "c2"];
        assert(keys@.map_values(|k: &str| k@) =~= seq!["p"@, "x"@, "c1"@, "c2"@]);
        let v = match int_args_of(params, keys) {
            Ok(v) => v,
            Err(e) => return Err(e),
        };
        let f = crate::algorithms::elgamal::decrypt;
        return f(v[0], v[1], v[2], v[3]);
    }
    if text_eq(command, "elgamal.sign") {
        let keys: &[&str] = &["p", "g", "d", "m", "k"];
        assert(keys@.map_values(|k: &str| k@) =~= seq!["p"@, "g"@, "d"@, "m"@, "k"@]);
        let v = match int_args_of(params, keys) {
            Ok(v) => v,
            Err(e) => return Err(e),
        };
        let f = crate::algorithms::elgamal_signature::sign;
        return f(v[0], v[1], v[2], v[3], v[4]);
    }
    if text_eq(command, "elgamal.verify") {
        let keys: &[&str] = &["p", "g", "e", "m", "r", "s"];
        assert(keys@.map_values(|k: &str| k@) =~= seq!["p"@, "g"@, "e"@, "m"@, "r"@, "s"@]);
        let v = match int_args_of(params, keys) {
            Ok(v) => v,
            Err(e) => return Err(e),
        };
        let f = crate::algorithms::elgamal_signature::verify;
        return f(v[0], v[1], v[2], v[3], v[4], v[5]);
    }
    if text_eq(command, "dh.exchange") {
        let keys: &[&str] = &["p", "g", "a", "b"];
        assert(keys@.map_values(|k: &str| k@) =~= seq!["p"@, "g"@, "a"@, "b"@]);
        let v = match int_args_of(params, keys) {
            Ok(v) => v,
            Err(e) => return Err(e),
        };
        let f = crate::algorithms::diffie_hellman::key_exchange;
        return f(v[0], v[1], v[2], v[3]);
    }
    if text_eq(command, "shamir.three_pass") {
        let keys: &[&str] = &["p", "m", "a", "b"];
        assert(keys@.map_values(|k: &str| k@) =~= seq!["p"@, "m"@, "a"@, "b"@]);
        let v = match int_args_of(params, keys) {
            Ok(v) => v,
            Err(e) => return Err(e),
        };
        let f = crate::algorithms::shamir_three_pass::run;
        return f(v[0], v[1], v[2], v[3]);
    }
    if text_eq(command, "ecc.add") {
        let keys: &[&str] = &["a", "b", "p", "px", "py", "qx", "qy"];
        assert(keys@.map_values(|k: &str| k@) =~= seq!["a"@, "b"@, "p"@, "px"@, "py"@, "qx"@, "qy"@]);
        let v = match int_args_of(params, keys) {
            Ok(v) => v,
            Err(e) => return Err(e),
        };
        let f = crate::algorithms::ecc::add_trace;
        return f(v[0], v[1], v[2], Point::Affine(v[3], v[4]), Point::Affine(v[5], v[6]));
    }
    if text_eq(command, "ecc.scalar") {
        let keys: &[&str] = &["a", "b", "p", "k", "px", "py"];
        assert(keys@.map_values(|k: &str| k@) =~= seq!["a"@, "b"@, "p"@, "k"@, "px"@, "py"@]);
        let v = match int_args_of(params, keys) {
            Ok(v) => v,
            Err(e) => return Err(e),
        };
        let f = crate::algorithms::ecc::scalar_trace;
        return f(v[0], v[1], v[2], v[3], Point::Affine(v[4], v[5]));
    }
    if text_eq(command, "fiat_shamir.round") {
        let keys: &[&str] = &["n", "s", "k", "e"];
        assert(keys@.map_values(|k: &str| k@) =~= seq!["n"@, "s"@, "k"@, "e"@]);
        let v = match int_args_of(params, keys) {
            Ok(v) => v,
            Err(e) => return Err(e),
        };
        let f = crate::algorithms::fiat_shamir::round;
        return f(v[0], v[1], v[2], v[3]);
    }
    if text_eq(command, "bsgs") {
        let keys: &[&str] = &["g", "h", "p"];
        assert(keys@.map_values(|k: &str| k@) =~= seq!["g"@, "h"@, "p"@]);
        let v = match int_args_of(params, keys) {
            Ok(v) => v,
            Err(e) => return Err(e),
        };
        let f = crate::analysis::bsgs::solve;
        return f(v[0], v[1], v[2]);
    }
    if text_eq(command, "pollard_rho.factor") {
        let keys: &[&str] = &["n"];
        assert(keys@.map_values(|k: &str| k@) =~= seq!["n"@]);
        let v = match int_args_of(params, keys) {
            Ok(v) => v,
            Err(e) => return Err(e),
        };
        let f = crate::analysis::pollard_rho_factor::factor;
        return f(v[0],);
    }
    if text_eq(command, "pollard_rho.dlog") {
        let keys: &[&str] = &["g", "h", "p"];
        assert(keys@.map_values(|k: &str| k@) =~= seq!["g"@, "h"@, "p"@]);
        let v = match int_args_of(params, keys) {
            Ok(v) => v,
            Err(e) => return Err(e),
        };
        let f = crate::analysis::pollard_rho_dlog::solve;
        return f(v[0], v[1], v[2]);
    }
    if text_eq(command, "fermat.factor") {
        let keys: &[&str] = &["n"];
        assert(keys@.map_values(|k: &str| k@) =~= seq!["n"@]);
        let v = match int_args_of(params, keys) {
            Ok(v) => v,
            Err(e) => return Err(e),
        };
        let f = crate::analysis::fermat_factorization::factor;
        return f(v[0],);
    }
    if text_eq(command, "transposition.decrypt") {
        let s = match ps(params, "text") {
            Ok(s) => s,
            Err(e) => return Err(e),
        };
        let f = crate::analysis::columnar_transposition::decrypt;
        let t = s.as_str();
        let r = f(t);
        return r;
    }
    if text_eq(command, "pb.elgamal_mult_homomorph") {
        let keys: &[&str] = &["p", "g", "e", "d", "a1", "b1", "a", "b"];
        assert(keys@.map_values(|k: &str| k@) =~= seq!["p"@, "g"@, "e"@, "d"@, "a1"@, "b1"@, "a"@, "b"@]);
        let v = match int_args_of(params, keys) {
            Ok(v) => v,
            Err(e) => return Err(e),
        };
        let f = crate::playbooks::elgamal_mult_homomorph::run;
        return f(v[0], v[1], v[2], v[3], v[4], v[5], v[6], v[7]);
    }
    if text_eq(command, "pb.rsa_priv_from_pub_y") {
        let keys: &[&str] = &["n", "e", "y"];
        assert(keys@.map_values(|k: &str| k@) =~= seq!["n"@, "e"@, "y"@]);
        let v = match int_args_of(params, keys) {
            Ok(v) => v,
            Err(e) => return Err(e),
        };
        let o = match opt_i(params, "phi") {
            Ok(o) => o,
            Err(e) => return Err(e),
        };
        let f = crate::playbooks::rsa_geg_pub_enc_ges_priv_plain::run;
        return f(v[0], v[1], v[2], o);
    }
    if text_eq(command, "pb.dh_k_from_g_p_alpha_beta") {
        let keys: &[&str] = &["g", "p", "alpha", "beta"];
        assert(keys@.map_values(|k: &str| k@) =~= seq!["g"@, "p"@, "alpha"@, "beta"@]);
        let v = match int_args_of(params, keys) {
            Ok(v) => v,
            Err(e) => return Err(e),
        };
        let f = crate::playbooks::dh_geg_g_p_alpha_beta_ges_k::run;
        return f(v[0], v[1], v[2], v[3]);
    }
    if text_eq(command, "pb.elgamal_d_from_kpub") {
        let keys: &[&str] = &["p", "g", "e"];
        assert(keys@.map_values(|k: &str| k@) =~= seq!["p"@, "g"@, "e"@]);
        let v = match int_args_of(params, keys) {
            Ok(v) => v,
            Err(e) => return Err(e),
        };
        let f = crate::playbooks::elgamal_geg_kpub_ges_priv_verf::run;
        return f(v[0], v[1], v[2]);
    }
    if text_eq(command, "pb.rsa_check_d") {
        let keys: &[&str] = &["n", "e", "d"];
        assert(keys@.map_values(|k: &str| k@) =~= seq!["n"@, "e"@, "d"@]);
        let v = match int_args_of(params, keys) {
            Ok(v) => v,
            Err(e) => return Err(e),
        };
        let o = match opt_i(params, "y") {
            Ok(o) => o,
            Err(e) => return Err(e),
        };
        let f = crate::playbooks::rsa_geg_kpub_kpriv_encm_ges_kpriv_to_kpub::run;
        return f(v[0], v[1], v[2], o);
    }
    if text_eq(command, "pb.elgamal_sig_verify") {
        let keys: &[&str] = &["p", "g", "e", "m", "r", "s"];
        assert(keys@.map_values(|k: &str| k@) =~= seq!["p"@, "g"@, "e"@, "m"@, "r"@, "s"@]);
        let v = match int_args_of(params, keys) {
            Ok(v) => v,
            Err(e) => return Err(e),
        };
        let f = crate::playbooks::elgamal_geg_sig_kpub_ges_legitsig::run;
        return f(v[0], v[1], v[2], v[3], v[4], v[5]);
    }
    if text_eq(command, "pb.rsa_pcap_decrypt") {
        let keys: &[&str] = &["n", "e", "y"];
        assert(keys@.map_values(|k: &str| k@) =~= seq!["n"@, "e"@, "y"@]);
        let v = match int_args_of(params, keys) {
            Ok(v) => v,
            Err(e) => return Err(e),
        };
        let f = crate::playbooks::rsa_geg_kpub_ges_kpriv_plain::run;
        return f(v[0], v[1], v[2]);
    }
    if text_eq(command, "pb.elgamal_pcap_decrypt") {
        let keys: &[&str] = &["p", "g", "e", "a", "b"];
        assert(keys@.map_values(|k: &str| k@) =~= seq!["p"@, "g"@, "e"@, "a"@, "b"@]);
        let v = match int_args_of(params, keys) {
            Ok(v) => v,
            Err(e) => return Err(e),
        };
        let f = crate::playbooks::elgamal_geg_kpub_ges_kpriv::run;
        return f(v[0], v[1], v[2], v[3], v[4]);
    }
    if text_eq(command, "pb.dh_pcap_shared") {
        let keys: &[&str] = &["p", "g", "alpha", "beta"];
        assert(keys@.map_values(|k: &str| k@) =~= seq!["p"@, "g"@, "alpha"@, "beta"@]);
        let v = match int_args_of(params, keys) {
            Ok(v) => v,
            Err(e) => return Err(e),
        };
        let o = match opt_i(params, "c") {
            Ok(o) => o,
            Err(e) => return Err(e),
        };
        let f = crate::playbooks::dh_ges_schluessel::run;
        return f(v[0], v[1], v[2], v[3], o);
    }
    Err(refusal("Unbekanntes Kommando '", command, "'"))
}

/// Whether the parameters of `command` that can be read lie within what its
/// computation handles.
#[verifier::rlimit(50)]
pub fn supported(command: &str, params: &Params) -> (b: bool)
    ensures
        b == dispatch_in_range(command@, params.entries@),
{
    if text_eq(command, "mod.add") {
        let keys: &[&str] = &["a", "b", "n"];
        assert(keys@.map_values(|k: &str| k@) =~= seq!["a"@, "b"@, "n"@]);
        return match int_args_of(params, keys) {
            Ok(v) => add_ok(v[0], v[1], v[2]),
            Err(_) => true,
        };
    }
    if text_eq(command, "mod.sub") {
        let keys: &[&str] = &["a", "b", "n"];
        assert(keys@.map_values(|k: &str| k@) =~= seq!["a"@, "b"@, "n"@]);
        return match int_args_of(params, keys) {
            Ok(v) => sub_ok(v[0], v[1], v[2]),
            Err(_) => true,
        };
    }
    if text_eq(command, "mod.mul") {
        let keys: &[&str] = &["a", "b", "n"];
        assert(keys@.map_values(|k: &str| k@) =~= seq!["a"@, "b"@, "n"@]);
        return match int_args_of(params, keys) {
            Ok(v) => mul_ok(v[0], v[1], v[2]),
            Err(_) => true,
        };
    }
    if text_eq(command, "mod.pow") {
        let keys: &[&str] = &["a", "e", "n"];
        assert(keys@.map_values(|k: &str| k@) =~= seq!["a"@, "e"@, "n"@]);
        return match int_args_of(params, keys) {
            Ok(v) => pow_ok(v[0], v[1], v[2]),
            Err(_) => true,
        };
    }
    if text_eq(command, "mod.inv_add") {
        let keys: &[&str] = &["a", "n"];
        assert(keys@.map_values(|k: &str| k@) =~= seq!["a"@, "n"@]);
        return match int_args_of(params, keys) {
            Ok(v) => true,
            Err(_) => true,
        };
    }
    if text_eq(command, "mod.inv_mul") {
        let keys: &[&str] = &["a", "n"];
        assert(keys@.map_values(|k: &str| k@) =~= seq!["a"@, "n"@]);
        return match int_args_of(params, keys) {
            Ok(v) => inv_mul_ok(v[0], v[1]),
            Err(_) => true,
        };
    }
    if text_eq(command, "mod.subgroup") {
        let keys: &[&str] = &["g", "p"];
        assert(keys@.map_values(|k: &str| k@) =~= seq!["g"@, "p"@]);
        return match int_args_of(params, keys) {
            Ok(v) => v[1] <= TRIAL_LIMIT && (!is_prime(v[1]) || (v[1] <= MOD_LIMIT && v[0] != i128::MIN)),
            Err(_) => true,
        };
    }
    if text_eq(command, "mod.primitive_roots") {
        let keys: &[&str] = &["p"];
        assert(keys@.map_values(|k: &str| k@) =~= seq!["p"@]);
        return match int_args_of(params, keys) {
            Ok(v) => v[0] <= TRIAL_LIMIT && (!is_prime(v[0]) || v[0] <= MOD_LIMIT),
            Err(_) => true,
        };
    }
    if text_eq(command, "rsa.keygen") {
        let keys: &[&str] = &["p", "q", "e"];
        assert(keys@.map_values(|k: &str| k@) =~= seq!["p"@, "q"@, "e"@]);
        return match int_args_of(params, keys) {
            Ok(v) => keygen_ok(v[0], v[1], v[2]),
            Err(_) => true,
        };
    }
    if text_eq(command, "rsa.encrypt") {
        let keys: &[&str] = &["n", "e", "m"];
        assert(keys@.map_values(|k: &str| k@) =~= seq!["n"@, "e"@, "m"@]);
        return match int_args_of(params, keys) {
            Ok(v) => !(0 <= v[2] && v[2] < v[0]) || (v[0] <= MOD_LIMIT && v[1] > i128::MIN),
            Err(_) => true,
        };
    }
    if text_eq(command, "rsa.decrypt") {
        let keys: &[&str] = &["n", "d", "c"];
        assert(keys@.map_values(|k: &str| k@) =~= seq!["n"@, "d"@, "c"@]);
        return match int_args_of(params, keys) {
            Ok(v) => v[0] <= MOD_LIMIT && v[1] > i128::MIN,
            Err(_) => true,
        };
    }
    if text_eq(command, "rsa.sign") {
        let keys: &[&str] = &["n", "d", "m"];
        assert(keys@.map_values(|k: &str| k@) =~= seq!["n"@, "d"@, "m"@]);
        return match int_args_of(params, keys) {
            Ok(v) => !(0 <= v[2] && v[2] < v[0]) || (v[0] <= MOD_LIMIT && v[1] > i128::MIN),
            Err(_) => true,
        };
    }
    if text_eq(command, "rsa.verify") {
        let keys: &[&str] = &["n", "e", "m", "s"];
        assert(keys@.map_values(|k: &str| k@) =~= seq!["n"@, "e"@, "m"@, "s"@]);
        return match int_args_of(params, keys) {
            Ok(v) => !(0 <= v[2] && v[2] < v[0] && 0 <= v[3] && v[3] < v[0]) || (v[0] <= MOD_LIMIT && v[1] > i128::MIN),
            Err(_) => true,
        };
    }
    if text_eq(command, "elgamal.encrypt") {
        let keys: &[&str] = &["p", "g", "x", "m", "k"];
        assert(keys@.map_values(|k: &str| k@) =~= seq!["p"@, "g"@, "x"@, "m"@, "k"@]);
        return match int_args_of(params, keys) {
            Ok(v) => v[0] <= TRIAL_LIMIT && (!is_prime(v[0]) || (v[0] <= MOD_LIMIT && v[2] > i128::MIN && v[4] > i128::MIN)),
            Err(_) => true,
        };
    }
    if text_eq(command, "elgamal.decrypt") {
        let keys: &[&str] = &["p", "x", "c1", "c2"];
        assert(keys@.map_values(|k: &str| k@) =~= seq!["p"@, "x"@, "c1"@, "c2"@]);
        return match int_args_of(params, keys) {
            Ok(v) => v[0] <= MOD_LIMIT && v[1] > i128::MIN && -MOD_LIMIT < v[3] && v[3] < MOD_LIMIT,
            Err(_) => true,
        };
    }
    if text_eq(command, "elgamal.sign") {
        let keys: &[&str] = &["p", "g", "d", "m", "k"];
        assert(keys@.map_values(|k: &str| k@) =~= seq!["p"@, "g"@, "d"@, "m"@, "k"@]);
        return match int_args_of(params, keys) {
            Ok(v) => v[0] <= TRIAL_LIMIT && (!is_prime(v[0]) || (2 <= v[0] && v[0] <= MOD_LIMIT && sign_fits_exec(v[0], v[2], v[3]))),
            Err(_) => true,
        };
    }
    if text_eq(command, "elgamal.verify") {
        let keys: &[&str] = &["p", "g", "e", "m", "r", "s"];
        assert(keys@.map_values(|k: &str| k@) =~= seq!["p"@, "g"@, "e"@, "m"@, "r"@, "s"@]);
        return match int_args_of(params, keys) {
            Ok(v) => v[0] <= TRIAL_LIMIT && (!(is_prime(v[0]) && 0 < v[4] && v[4] < v[0] && 0 < v[5] && v[5] < v[0] - 1) || (v[0] <= MOD_LIMIT && v[3] > i128::MIN)),
            Err(_) => true,
        };
    }
    if text_eq(command, "dh.exchange") {
        let keys: &[&str] = &["p", "g", "a", "b"];
        assert(keys@.map_values(|k: &str| k@) =~= seq!["p"@, "g"@, "a"@, "b"@]);
        return match int_args_of(params, keys) {
            Ok(v) => v[0] <= TRIAL_LIMIT && (!is_prime(v[0]) || (v[0] <= MOD_LIMIT && v[2] > i128::MIN && v[3] > i128::MIN)),
            Err(_) => true,
        };
    }
    if text_eq(command, "shamir.three_pass") {
        let keys: &[&str] = &["p", "m", "a", "b"];
        assert(keys@.map_values(|k: &str| k@) =~= seq!["p"@, "m"@, "a"@, "b"@]);
        return match int_args_of(params, keys) {
            Ok(v) => v[0] <= TRIAL_LIMIT && (!is_prime(v[0]) || (v[0] <= MOD_LIMIT && v[2] > i128::MIN && v[3] > i128::MIN)),
            Err(_) => true,
        };
    }
    if text_eq(command, "ecc.add") {
        let keys: &[&str] = &["a", "b", "p", "px", "py", "qx", "qy"];
        assert(keys@.map_values(|k: &str| k@) =~= seq!["a"@, "b"@, "p"@, "px"@, "py"@, "qx"@, "qy"@]);
        return match int_args_of(params, keys) {
            Ok(v) => coord_in(v[3], v[4]) && coord_in(v[5], v[6]) && params_in(v[0], v[2]) && disc_ok(v[0], v[1]),
            Err(_) => true,
        };
    }
    if text_eq(command, "ecc.scalar") {
        let keys: &[&str] = &["a", "b", "p", "k", "px", "py"];
        assert(keys@.map_values(|k: &str| k@) =~= seq!["a"@, "b"@, "p"@, "k"@, "px"@, "py"@]);
        return match int_args_of(params, keys) {
            Ok(v) => coord_in(v[4], v[5]) && params_in(v[0], v[2]) && disc_ok(v[0], v[1]) && v[3] > i128::MIN,
            Err(_) => true,
        };
    }
    if text_eq(command, "fiat_shamir.round") {
        let keys: &[&str] = &["n", "s", "k", "e"];
        assert(keys@.map_values(|k: &str| k@) =~= seq!["n"@, "s"@, "k"@, "e"@]);
        return match int_args_of(params, keys) {
            Ok(v) => (!(v[3] == 0 || v[3] == 1) || v[0] <= MOD_LIMIT) && (!(v[3] == 1 && v[0] > 0) || mul_fits(v[2], v[1])),
            Err(_) => true,
        };
    }
    if text_eq(command, "bsgs") {
        let keys: &[&str] = &["g", "h", "p"];
        assert(keys@.map_values(|k: &str| k@) =~= seq!["g"@, "h"@, "p"@]);
        return match int_args_of(params, keys) {
            Ok(v) => v[2] <= TRIAL_LIMIT && (!is_prime(v[2]) || (v[2] <= MOD_LIMIT && shifted_abs_fits(v[2], v[0]))),
            Err(_) => true,
        };
    }
    if text_eq(command, "pollard_rho.factor") {
        let keys: &[&str] = &["n"];
        assert(keys@.map_values(|k: &str| k@) =~= seq!["n"@]);
        return match int_args_of(params, keys) {
            Ok(v) => v[0] % 2 == 0 || v[0] <= MOD_LIMIT,
            Err(_) => true,
        };
    }
    if text_eq(command, "pollard_rho.dlog") {
        let keys: &[&str] = &["g", "h", "p"];
        assert(keys@.map_values(|k: &str| k@) =~= seq!["g"@, "h"@, "p"@]);
        return match int_args_of(params, keys) {
            Ok(v) => v[2] <= TRIAL_LIMIT && (!is_prime(v[2]) || (v[2] <= MOD_LIMIT && shifted_abs_fits(v[2], v[0]) && shifted_abs_fits(v[2], v[1]))),
            Err(_) => true,
        };
    }
    if text_eq(command, "fermat.factor") {
        let keys: &[&str] = &["n"];
        assert(keys@.map_values(|k: &str| k@) =~= seq!["n"@]);
        return match int_args_of(params, keys) {
            Ok(v) => v[0] <= TRIAL_LIMIT,
            Err(_) => true,
        };
    }
    if text_eq(command, "pb.elgamal_mult_homomorph") {
        let keys: &[&str] = &["p", "g", "e", "d", "a1", "b1", "a", "b"];
        assert(keys@.map_values(|k: &str| k@) =~= seq!["p"@, "g"@, "e"@, "d"@, "a1"@, "b1"@, "a"@, "b"@]);
        return match int_args_of(params, keys) {
            Ok(v) => v[0] <= TRIAL_LIMIT && (!is_prime(v[0]) || (v[0] <= MOD_LIMIT && v[3] > i128::MIN && shifted_abs_fits(v[0], v[5]) && shifted_abs_fits(v[0], v[6]) && shifted_abs_fits(v[0], v[7]))),
            Err(_) => true,
        };
    }
    if text_eq(command, "pb.rsa_priv_from_pub_y") {
        let keys: &[&str] = &["n", "e", "y"];
        assert(keys@.map_values(|k: &str| k@) =~= seq!["n"@, "e"@, "y"@]);
        return match int_args_of(params, keys) {
            Ok(v) => !(1 < v[0] && 0 <= v[2] && v[2] < v[0]) || (v[0] <= MOD_LIMIT && abs_mul_fits(v[1], v[0])),
            Err(_) => true,
        };
    }
    if text_eq(command, "pb.dh_k_from_g_p_alpha_beta") {
        let keys: &[&str] = &["g", "p", "alpha", "beta"];
        assert(keys@.map_values(|k: &str| k@) =~= seq!["g"@, "p"@, "alpha"@, "beta"@]);
        return match int_args_of(params, keys) {
            Ok(v) => v[1] <= TRIAL_LIMIT && (!is_prime(v[1]) || (v[1] <= MOD_LIMIT && shifted_abs_fits(v[1], v[0]))),
            Err(_) => true,
        };
    }
    if text_eq(command, "pb.elgamal_d_from_kpub") {
        let keys: &[&str] = &["p", "g", "e"];
        assert(keys@.map_values(|k: &str| k@) =~= seq!["p"@, "g"@, "e"@]);
        return match int_args_of(params, keys) {
            Ok(v) => v[0] <= TRIAL_LIMIT && (!is_prime(v[0]) || (v[0] <= MOD_LIMIT && shifted_abs_fits(v[0], v[1]))),
            Err(_) => true,
        };
    }
    if text_eq(command, "pb.rsa_check_d") {
        let keys: &[&str] = &["n", "e", "d"];
        assert(keys@.map_values(|k: &str| k@) =~= seq!["n"@, "e"@, "d"@]);
        return match int_args_of(params, keys) {
            Ok(v) => match opt_i(params, "y") {
                Ok(o) => key_check_supported(v[0], v[1], v[2], o),
                Err(_) => true,
            },
            Err(_) => true,
        };
    }
    if text_eq(command, "pb.elgamal_sig_verify") {
        let keys: &[&str] = &["p", "g", "e", "m", "r", "s"];
        assert(keys@.map_values(|k: &str| k@) =~= seq!["p"@, "g"@, "e"@, "m"@, "r"@, "s"@]);
        return match int_args_of(params, keys) {
            Ok(v) => v[0] <= TRIAL_LIMIT && (!is_prime(v[0]) || (v[0] <= MOD_LIMIT && v[3] > i128::MIN)),
            Err(_) => true,
        };
    }
    if text_eq(command, "pb.rsa_pcap_decrypt") {
        let keys: &[&str] = &["n", "e", "y"];
        assert(keys@.map_values(|k: &str| k@) =~= seq!["n"@, "e"@, "y"@]);
        return match int_args_of(params, keys) {
            Ok(v) => !(1 < v[0] && 0 <= v[2] && v[2] < v[0]) || (v[0] <= MOD_LIMIT && abs_mul_fits(v[1], v[0])),
            Err(_) => true,
        };
    }
    if text_eq(command, "pb.elgamal_pcap_decrypt") {
        let keys: &[&str] = &["p", "g", "e", "a", "b"];
        assert(keys@.map_values(|k: &str| k@) =~= seq!["p"@, "g"@, "e"@, "a"@, "b"@]);
        return match int_args_of(params, keys) {
            Ok(v) => v[0] <= TRIAL_LIMIT && (!is_prime(v[0]) || (v[0] <= MOD_LIMIT && shifted_abs_fits(v[0], v[1]))),
            Err(_) => true,
        };
    }
    if text_eq(command, "pb.dh_pcap_shared") {
        let keys: &[&str] = &["p", "g", "alpha", "beta"];
        assert(keys@.map_values(|k: &str| k@) =~= seq!["p"@, "g"@, "alpha"@, "beta"@]);
        return match int_args_of(params, keys) {
            Ok(v) => v[0] <= TRIAL_LIMIT && (!is_prime(v[0]) || (v[0] <= MOD_LIMIT && shifted_abs_fits(v[0], v[1]))),
            Err(_) => true,
        };
    }
    true
}

/// Runs `command` where its parameters lie within what its computation handles,
/// and refuses it as out of range otherwise.
pub fn run_checked(command: &str, params: &Params) -> (r: CalcResult<Trace>)
    ensures
        !dispatch_in_range(command@, params.entries@) ==> (r matches Err(CalcError::Bereich(s))
            && s@ == "Parameter außerhalb des unterstützten Zahlenbereichs"@),
        dispatch_in_range(command@, params.entries@) ==> dispatch_post(
            command@,
            params.entries@,
            r,
        ),
        !command_names().contains(command@) ==> refused_with(r, unknown_message(command@)),
{
    proof {
        lemma_listed(command@);
    }
    if !supported(command, params) {
        return Err(
            CalcError::Bereich(
                String::from_str("Parameter außerhalb des unterstützten Zahlenbereichs"),
            ),
        );
    }
    run(command, params)
}

} // verus!
