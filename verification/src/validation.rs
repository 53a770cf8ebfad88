//! Reading integers from text and checking ranges.
use vstd::prelude::*;
use crate::error::{CalcError, CalcResult};
use crate::text::{dec, int_text, push_int, push_str};

verus! {

/// The characters of a string slice.
pub fn chars_of(s: &str) -> (v: Vec<char>)
    ensures
        v@ == s@,
{
    let mut v: Vec<char> = Vec::new();
    for c in it: s.chars()
        invariant
            it.seq() == s@,
            v@ == it.seq().take(it.index()),
    {
        v.push(c);
    }
    v
}

/// Whether two texts are equal, character by character.
pub fn text_eq(a: &str, b: &str) -> (r: bool)
    ensures
        r == (a@ == b@),
{
    let va = chars_of(a);
    let vb = chars_of(b);
    if va.len() != vb.len() {
        return false;
    }
    let mut i: usize = 0;
    while i < va.len()
        invariant
            va@ == a@,
            vb@ == b@,
            va@.len() == vb@.len(),
            i <= va@.len(),
            forall|k: int| 0 <= k < i ==> va@[k] == vb@[k],
        decreases va@.len() - i,
    {
        if va[i] != vb[i] {
            return false;
        }
        i += 1;
    }
    assert(a@ =~= b@);
    true
}

/// Unicode white space (the characters `char::is_whitespace` accepts).
pub open spec fn is_ws(c: char) -> bool {
    let u = c as u32;
    (0x09 <= u <= 0x0D) || u == 0x20 || u == 0x85 || u == 0xA0 || u == 0x1680 || (0x2000 <= u
        <= 0x200A) || u == 0x2028 || u == 0x2029 || u == 0x202F || u == 0x205F || u == 0x3000
}

/// Drops leading white space.
pub open spec fn trim_start(s: Seq<char>) -> Seq<char>
    decreases s.len(),
{
    if s.len() > 0 && is_ws(s[0]) {
        trim_start(s.drop_first())
    } else {
        s
    }
}

/// Drops trailing white space.
pub open spec fn trim_end(s: Seq<char>) -> Seq<char>
    decreases s.len(),
{
    if s.len() > 0 && is_ws(s.last()) {
        trim_end(s.drop_last())
    } else {
        s
    }
}

/// Drops leading and trailing white space (what `str::trim` does).
pub open spec fn trimmed(s: Seq<char>) -> Seq<char> {
    trim_end(trim_start(s))
}

fn is_ws_exec(c: char) -> (b: bool)
    ensures
        b == is_ws(c),
{
    let u = c as u32;
    (0x09 <= u && u <= 0x0D) || u == 0x20 || u == 0x85 || u == 0xA0 || u == 0x1680 || (0x2000
        <= u && u <= 0x200A) || u == 0x2028 || u == 0x2029 || u == 0x202F || u == 0x205F || u
        == 0x3000
}

/// The string with leading and trailing white space removed.
pub fn trim(s: &str) -> (t: &str)
    ensures
        t@ == trimmed(s@),
{
    let v = chars_of(s);
    let n = v.len();
    let mut i: usize = 0;
    assert(s@.subrange(0, n as int) == s@);
    while i < n && is_ws_exec(v[i])
        invariant
            v@ == s@,
            n == v@.len(),
            i <= n,
            trim_start(s@) == trim_start(s@.subrange(i as int, n as int)),
        decreases n - i,
    {
        assert(s@.subrange(i as int, n as int).drop_first() == s@.subrange(i + 1, n as int));
        i += 1;
    }
    assert(trim_start(s@) == s@.subrange(i as int, n as int));
    let mut j: usize = n;
    while j > i && is_ws_exec(v[j - 1])
        invariant
            v@ == s@,
            n == v@.len(),
            i <= j <= n,
            trim_end(s@.subrange(i as int, n as int)) == trim_end(s@.subrange(i as int, j as int)),
        decreases j,
    {
        assert(s@.subrange(i as int, j as int).drop_last() == s@.subrange(i as int, j - 1));
        j -= 1;
    }
    s.substring_char(i, j)
}

pub open spec fn is_digit(c: char) -> bool {
    '0' <= c <= '9'
}

pub open spec fn all_digits(s: Seq<char>) -> bool {
    forall|i: int| 0 <= i < s.len() ==> is_digit(#[trigger] s[i])
}

/// Value of a string of decimal digits.
pub open spec fn digits_value(s: Seq<char>) -> int
    decreases s.len(),
{
    if s.len() == 0 {
        0
    } else {
        digits_value(s.drop_last()) * 10 + (s.last() as int - 48)
    }
}

/// The integer a text denotes: an optional sign then one or more decimal digits.
pub open spec fn parse_value(t: Seq<char>) -> Option<int> {
    if t.len() > 0 && (t[0] == '-' || t[0] == '+') {
        let body = t.drop_first();
        if body.len() > 0 && all_digits(body) {
            Some(
                if t[0] == '-' {
                    -digits_value(body)
                } else {
                    digits_value(body)
                },
            )
        } else {
            None
        }
    } else if t.len() > 0 && all_digits(t) {
        Some(digits_value(t))
    } else {
        None
    }
}

/// What `str::parse::<i128>` gives: the denoted integer when it fits in `i128`.
pub open spec fn parse_i128(t: Seq<char>) -> Option<int> {
    match parse_value(t) {
        Some(v) => if i128::MIN <= v <= i128::MAX {
            Some(v)
        } else {
            None
        },
        None => None,
    }
}

proof fn lemma_digits_value_mono(s: Seq<char>, k: int)
    requires
        all_digits(s),
        0 <= k <= s.len(),
    ensures
        0 <= digits_value(s.take(k)) <= digits_value(s),
    decreases s.len(),
{
    if s.len() > 0 {
        if k == s.len() {
            assert(s.take(k) == s);
        } else {
            assert(s.drop_last().take(k) == s.take(k));
            assert(all_digits(s.drop_last()));
            lemma_digits_value_mono(s.drop_last(), k);
            assert(is_digit(s[s.len() - 1]));
        }
        assert(all_digits(s.drop_last()));
        lemma_digits_value_mono(s.drop_last(), s.len() - 1);
        assert(s.drop_last().take(s.len() - 1) == s.drop_last());
        assert(is_digit(s.last()));
    } else {
        assert(s.take(k) == s);
    }
}

/// Reads the digits `v[from..]` into a signed value; `None` when it does not fit.
fn read_digits(v: &Vec<char>, from: usize, negative: bool) -> (r: Option<i128>)
    requires
        from < v@.len(),
        all_digits(v@.skip(from as int)),
    ensures
        ({
            let val = if negative {
                -digits_value(v@.skip(from as int))
            } else {
                digits_value(v@.skip(from as int))
            };
            if i128::MIN <= val <= i128::MAX {
                r == Some(val as i128)
            } else {
                r is None
            }
        }),
{
    let ghost body = v@.skip(from as int);
    let mut acc: i128 = 0;
    let mut i: usize = from;
    proof {
        lemma_digits_value_mono(body, body.len() as int);
        assert(body.take(body.len() as int) == body);
    }
    while i < v.len()
        invariant
            from <= i <= v@.len(),
            body == v@.skip(from as int),
            all_digits(body),
            acc == (if negative {
                -digits_value(body.take(i - from))
            } else {
                digits_value(body.take(i - from))
            }),
        decreases v@.len() - i,
    {
        let c = v[i];
        proof {
            assert(body[i - from] == c);
            assert(body.take(i - from + 1).drop_last() == body.take(i - from));
            assert(body.take(i - from + 1).last() == c);
            assert(is_digit(c));
            lemma_digits_value_mono(body, i - from + 1);
        }
        let d = (c as u32 - 48) as i128;
        let step = if negative {
            match acc.checked_mul(10) {
                Some(m) => m.checked_sub(d),
                None => None,
            }
        } else {
            match acc.checked_mul(10) {
                Some(m) => m.checked_add(d),
                None => None,
            }
        };
        match step {
            Some(a) => {
                acc = a;
            },
            None => {
                return None;
            },
        }
        i += 1;
    }
    proof {
        assert(body.take(i - from) == body);
    }
    Some(acc)
}

/// The integer that the text denotes, exactly as written (what `str::parse::<i128>` accepts).
pub fn parse_exact(t: &str) -> (r: Option<i128>)
    ensures
        parse_i128(t@) matches Some(v) ==> r == Some(v as i128),
        parse_i128(t@) is None ==> r is None,
{
    let v = chars_of(t);
    let n = v.len();
    let mut r: Option<i128> = None;
    if n > 0 && (v[0] == '-' || v[0] == '+') {
        if n > 1 {
            let mut ok = true;
            let mut k: usize = 1;
            while k < n
                invariant
                    1 <= k <= n,
                    n == v@.len(),
                    ok == (forall|j: int| 1 <= j < k ==> is_digit(#[trigger] v@[j])),
                decreases n - k,
            {
                if !('0' <= v[k] && v[k] <= '9') {
                    ok = false;
                }
                k += 1;
            }
            proof {
                assert(ok == all_digits(v@.drop_first())) by {
                    if ok {
                        assert forall|i: int| 0 <= i < v@.drop_first().len() implies is_digit(
                            #[trigger] v@.drop_first()[i],
                        ) by {
                            assert(v@.drop_first()[i] == v@[i + 1]);
                        }
                    } else {
                        let j = choose|j: int| 1 <= j < n && !is_digit(#[trigger] v@[j]);
                        assert(v@.drop_first()[j - 1] == v@[j]);
                    }
                }
                assert(v@.drop_first() == v@.skip(1));
            }
            if ok {
                r = read_digits(&v, 1, v[0] == '-');
            }
        }
    } else if n > 0 {
        let mut ok = true;
        let mut k: usize = 0;
        while k < n
            invariant
                k <= n,
                n == v@.len(),
                ok == (forall|j: int| 0 <= j < k ==> is_digit(#[trigger] v@[j])),
            decreases n - k,
        {
            if !('0' <= v[k] && v[k] <= '9') {
                ok = false;
            }
            k += 1;
        }
        proof {
            assert(v@.skip(0) == v@);
        }
        if ok {
            r = read_digits(&v, 0, false);
        }
    }
    r
}

/// The integer that the trimmed text denotes.
pub fn parse_int(s: &str) -> (r: CalcResult<i128>)
    ensures
        parse_i128(trimmed(s@)) matches Some(v) ==> r == Ok::<i128, CalcError>(v as i128),
        parse_i128(trimmed(s@)) is None ==> (r matches Err(CalcError::UngueltigeEingabe(m)) && m@
            == "\""@ + trimmed(s@) + "\" ist keine ganze Zahl"@),
{
    let t = trim(s);
    match parse_exact(t) {
        Some(x) => Ok(x),
        None => {
            let mut m = String::from_str("\"");
            push_str(&mut m, t);
            push_str(&mut m, "\" ist keine ganze Zahl");
            Err(CalcError::UngueltigeEingabe(m))
        },
    }
}

/// A nonnegative integer read from the trimmed text.
pub fn parse_uint(s: &str) -> (r: CalcResult<u128>)
    ensures
        parse_i128(trimmed(s@)) matches Some(v) ==> (v >= 0 ==> r == Ok::<u128, CalcError>(
            v as u128,
        )),
        parse_i128(trimmed(s@)) matches Some(v) ==> (v < 0 ==> (r matches Err(
            CalcError::UngueltigeEingabe(m),
        ) && m@ == "\""@ + trimmed(s@) + "\" muss nicht negativ sein"@)),
        parse_i128(trimmed(s@)) is None ==> (r matches Err(CalcError::UngueltigeEingabe(m)) && m@
            == "\""@ + trimmed(s@) + "\" ist keine ganze Zahl"@),
{
    let v = match parse_int(s) {
        Ok(v) => v,
        Err(e) => return Err(e),
    };
    if v < 0 {
        let mut m = String::from_str("\"");
        push_str(&mut m, trim(s));
        push_str(&mut m, "\" muss nicht negativ sein");
        return Err(CalcError::UngueltigeEingabe(m));
    }
    Ok(v as u128)
}

/// The value when it lies in `[lo, hi]`.
pub fn ensure_in_range(value: i128, lo: i128, hi: i128) -> (r: CalcResult<i128>)
    ensures
        lo <= value <= hi ==> r == Ok::<i128, CalcError>(value),
        !(lo <= value <= hi) ==> (r matches Err(CalcError::Bereich(m)) && m@ == dec(value as int)
            + " liegt nicht in ["@ + dec(lo as int) + ", "@ + dec(hi as int) + "]"@),
{
    if value < lo || value > hi {
        let mut m = int_text(value);
        push_str(&mut m, " liegt nicht in [");
        push_int(&mut m, lo);
        push_str(&mut m, ", ");
        push_int(&mut m, hi);
        push_str(&mut m, "]");
        return Err(CalcError::Bereich(m));
    }
    Ok(value)
}

/// The value when it is positive.
pub fn ensure_positive(value: i128) -> (r: CalcResult<i128>)
    ensures
        value > 0 ==> r == Ok::<i128, CalcError>(value),
        value <= 0 ==> (r matches Err(CalcError::Bereich(m)) && m@ == dec(value as int)
            + " muss > 0 sein"@),
{
    if value <= 0 {
        let mut m = int_text(value);
        push_str(&mut m, " muss > 0 sein");
        return Err(CalcError::Bereich(m));
    }
    Ok(value)
}

} // verus!
