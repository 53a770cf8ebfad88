//! Building display text: decimal rendering of integers and concatenation
//! of literal and numeric pieces, each with an exact specification.
use vstd::prelude::*;

verus! {

/// The ASCII character of a decimal digit `d` (0 <= d < 10).
pub open spec fn digit_char(d: int) -> char {
    (48 + d) as char
}

/// Decimal digits of a natural number, most significant first, no leading zeros.
pub open spec fn digits(n: nat) -> Seq<char>
    decreases n,
{
    if n < 10 {
        seq![digit_char(n as int)]
    } else {
        digits(n / 10).push(digit_char((n % 10) as int))
    }
}

/// Decimal rendering of an integer, with a leading '-' for negative values.
pub open spec fn dec(v: int) -> Seq<char> {
    if v < 0 {
        seq!['-'] + digits((-v) as nat)
    } else {
        digits(v as nat)
    }
}

/// The digits of `n` form a nonempty text of digit characters, ending in the
/// last digit of `n`, with more than one character exactly from 10 on.
proof fn lemma_digits_shape(n: nat)
    ensures
        digits(n).len() >= 1,
        (digits(n).len() == 1) == (n < 10),
        digits(n).last() == digit_char((n % 10) as int),
        '0' <= digits(n)[0] <= '9',
    decreases n,
{
    if n >= 10 {
        lemma_digits_shape(n / 10);
        assert(digits(n)[0] == digits(n / 10)[0]);
    }
}

/// Different natural numbers have different digits.
proof fn lemma_digits_injective(a: nat, b: nat)
    requires
        digits(a) == digits(b),
    ensures
        a == b,
    decreases a,
{
    lemma_digits_shape(a);
    lemma_digits_shape(b);
    assert(digit_char((a % 10) as int) == digit_char((b % 10) as int));
    assert((a % 10) == (b % 10));
    if a >= 10 {
        assert(digits(a).drop_last() =~= digits(a / 10));
        assert(digits(b).drop_last() =~= digits(b / 10));
        lemma_digits_injective(a / 10, b / 10);
    }
}

/// Decimal text is one-to-one: equal texts come from equal numbers.
pub proof fn lemma_dec_injective(a: int, b: int)
    requires
        dec(a) == dec(b),
    ensures
        a == b,
{
    lemma_digits_shape(abs_nat(a));
    lemma_digits_shape(abs_nat(b));
    if a < 0 && b < 0 {
        assert(dec(a).drop_first() =~= digits((-a) as nat));
        assert(dec(b).drop_first() =~= digits((-b) as nat));
        lemma_digits_injective((-a) as nat, (-b) as nat);
    } else if a >= 0 && b >= 0 {
        lemma_digits_injective(a as nat, b as nat);
    } else if a < 0 {
        assert(dec(a)[0] == '-');
        assert(dec(b)[0] == digits(b as nat)[0]);
    } else {
        assert(dec(b)[0] == '-');
        assert(dec(a)[0] == digits(a as nat)[0]);
    }
}

/// `|v|` as a natural number.
pub open spec fn abs_nat(v: int) -> nat {
    if v < 0 {
        (-v) as nat
    } else {
        v as nat
    }
}

/// The rendering of a boolean: "true" or "false".
pub open spec fn bool_text(b: bool) -> Seq<char> {
    if b {
        seq!['t', 'r', 'u', 'e']
    } else {
        seq!['f', 'a', 'l', 's', 'e']
    }
}

/// A piece of a line of text: literal text or an integer rendered in decimal.
pub enum Piece<'a> {
    Text(&'a str),
    Num(i128),
}

pub open spec fn piece_view(p: Piece) -> Seq<char> {
    match p {
        Piece::Text(s) => s@,
        Piece::Num(v) => dec(v as int),
    }
}

/// A power written out: the label, then `b^x mod p = v` with the numbers.
pub open spec fn power_line(label: Seq<char>, b: int, x: int, p: int, v: int) -> Seq<char> {
    label + dec(b) + "^"@ + dec(x) + " mod "@ + dec(p) + " = "@ + dec(v)
}

/// The text that a sequence of pieces renders to: the pieces concatenated.
pub open spec fn pieces_view(ps: Seq<Piece>) -> Seq<char>
    decreases ps.len(),
{
    if ps.len() == 0 {
        Seq::empty()
    } else {
        pieces_view(ps.drop_last()) + piece_view(ps.last())
    }
}

/// Appends one character (`String::push`).
#[verifier::external_body]
pub fn push_char(s: &mut String, c: char)
    ensures
        final(s)@ == old(s)@.push(c),
{
    s.push(c);
}

/// Appends a string slice.
pub fn push_str(s: &mut String, t: &str)
    ensures
        final(s)@ == old(s)@ + t@,
{
    s.append(t);
}

fn digit_of(d: u128) -> (c: char)
    requires
        d < 10,
    ensures
        c == digit_char(d as int),
{
    let b: u8 = d as u8;
    (48u8 + b) as char
}

fn push_digits(s: &mut String, n: u128)
    ensures
        final(s)@ == old(s)@ + digits(n as nat),
    decreases n,
{
    if n >= 10 {
        push_digits(s, n / 10);
        let c = digit_of(n % 10);
        push_char(s, c);
        assert(final(s)@ == old(s)@ + digits(n as nat));
    } else {
        let c = digit_of(n);
        push_char(s, c);
        assert(final(s)@ == old(s)@ + digits(n as nat));
    }
}

/// Appends the decimal rendering of `v`.
pub fn push_int(s: &mut String, v: i128)
    ensures
        final(s)@ == old(s)@ + dec(v as int),
{
    if v < 0 {
        push_char(s, '-');
        let mag: u128 = ((-(v + 1)) as u128) + 1;
        push_digits(s, mag);
        assert(final(s)@ == old(s)@ + dec(v as int));
    } else {
        push_digits(s, v as u128);
    }
}

/// The decimal rendering of `v` (what `to_string` gives for an integer).
pub fn int_text(v: i128) -> (s: String)
    ensures
        s@ == dec(v as int),
{
    let mut s = String::new();
    push_int(&mut s, v);
    s
}

/// "true" or "false".
pub fn bool_str(b: bool) -> (s: &'static str)
    ensures
        s@ == bool_text(b),
{
    proof {
        reveal_strlit("true");
        reveal_strlit("false");
    }
    if b {
        "true"
    } else {
        "false"
    }
}

/// Concatenation of the rendered pieces.
pub fn render(ps: &[Piece]) -> (s: String)
    ensures
        s@ == pieces_view(ps@),
{
    let mut s = String::new();
    let mut i: usize = 0;
    while i < ps.len()
        invariant
            i <= ps@.len(),
            s@ == pieces_view(ps@.subrange(0, i as int)),
        decreases ps@.len() - i,
    {
        let ghost before = ps@.subrange(0, i as int);
        match &ps[i] {
            Piece::Text(t) => push_str(&mut s, t),
            Piece::Num(v) => push_int(&mut s, *v),
        }
        assert(ps@.subrange(0, i + 1 as int).drop_last() == before);
        i += 1;
    }
    assert(ps@.subrange(0, ps@.len() as int) == ps@);
    s
}

/// The decimal rendering of a natural number.
pub fn uint_text(v: u128) -> (s: String)
    ensures
        s@ == dec(v as int),
{
    let mut s = String::new();
    push_digits(&mut s, v);
    s
}

/// A literal followed by an integer in decimal.
pub fn text_int(prefix: &str, v: i128) -> (s: String)
    ensures
        s@ == prefix@ + dec(v as int),
{
    let mut s = String::from_str(prefix);
    push_int(&mut s, v);
    s
}

/// The numbers in decimal, separated by ", ".
pub open spec fn join_dec(s: Seq<int>) -> Seq<char>
    decreases s.len(),
{
    if s.len() == 0 {
        Seq::empty()
    } else if s.len() == 1 {
        dec(s[0])
    } else {
        join_dec(s.drop_last()) + ", "@ + dec(s.last())
    }
}

/// "(a, b)".
pub open spec fn pair_view(a: int, b: int) -> Seq<char> {
    seq!['('] + dec(a) + seq![',', ' '] + dec(b) + seq![')']
}

/// The text "(a, b)".
pub fn pair_text(a: i128, b: i128) -> (s: String)
    ensures
        s@ == pair_view(a as int, b as int),
{
    let mut s = String::new();
    push_char(&mut s, '(');
    push_int(&mut s, a);
    push_char(&mut s, ',');
    push_char(&mut s, ' ');
    push_int(&mut s, b);
    push_char(&mut s, ')');
    s
}

} // verus!
