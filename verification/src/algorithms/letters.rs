//! ASCII letter helpers shared by the letter ciphers.
use vstd::prelude::*;
use crate::text::push_char;

verus! {

pub open spec fn is_upper(c: char) -> bool {
    'A' <= c <= 'Z'
}

pub open spec fn is_lower(c: char) -> bool {
    'a' <= c <= 'z'
}

/// `char::is_ascii_alphabetic`.
pub open spec fn is_letter(c: char) -> bool {
    is_upper(c) || is_lower(c)
}

/// Position of an ASCII letter in the alphabet, case ignored (0 for 'A'/'a').
pub open spec fn letter_index(c: char) -> int {
    if is_lower(c) {
        c as int - 97
    } else {
        c as int - 65
    }
}

/// The upper-case letter at alphabet position `i`.
pub open spec fn upper_at(i: int) -> char {
    (65 + i) as char
}

/// `char::to_ascii_lowercase`.
pub open spec fn to_lower(c: char) -> char {
    if is_upper(c) {
        (c as int + 32) as char
    } else {
        c
    }
}

/// `char::to_ascii_uppercase`.
pub open spec fn to_upper(c: char) -> char {
    if is_lower(c) {
        (c as int - 32) as char
    } else {
        c
    }
}

pub fn is_letter_exec(c: char) -> (b: bool)
    ensures
        b == is_letter(c),
{
    ('A' <= c && c <= 'Z') || ('a' <= c && c <= 'z')
}

pub fn is_lower_exec(c: char) -> (b: bool)
    ensures
        b == is_lower(c),
{
    'a' <= c && c <= 'z'
}

/// Alphabet position of a letter.
pub fn letter_index_exec(c: char) -> (i: usize)
    requires
        is_letter(c),
    ensures
        i == letter_index(c),
        i < 26,
{
    let u = c as u32;
    if 'a' <= c && c <= 'z' {
        (u - 97) as usize
    } else {
        (u - 65) as usize
    }
}

/// The upper-case letter at position `i`.
pub fn upper_at_exec(i: u8) -> (c: char)
    requires
        i < 26,
    ensures
        c == upper_at(i as int),
        is_upper(c),
{
    (65u8 + i) as char
}

pub fn to_lower_exec(c: char) -> (r: char)
    ensures
        r == to_lower(c),
{
    if 'A' <= c && c <= 'Z' {
        let u = c as u32 as u8;
        (u + 32) as char
    } else {
        c
    }
}

pub fn to_upper_exec(c: char) -> (r: char)
    ensures
        r == to_upper(c),
{
    if 'a' <= c && c <= 'z' {
        let u = c as u32 as u8;
        (u - 32) as char
    } else {
        c
    }
}

/// "A B C ... " : the letters separated by single spaces.
pub open spec fn spaced(s: Seq<char>) -> Seq<char>
    decreases s.len(),
{
    if s.len() == 0 {
        Seq::empty()
    } else if s.len() == 1 {
        s
    } else {
        spaced(s.drop_last()).push(' ').push(s.last())
    }
}

/// The characters separated by single spaces.
pub fn alphabet_line(arr: &Vec<char>) -> (s: String)
    ensures
        s@ == spaced(arr@),
{
    let mut s = String::new();
    let mut i: usize = 0;
    while i < arr.len()
        invariant
            i <= arr@.len(),
            s@ == spaced(arr@.subrange(0, i as int)),
        decreases arr@.len() - i,
    {
        if i > 0 {
            push_char(&mut s, ' ');
        }
        push_char(&mut s, arr[i]);
        proof {
            assert(arr@.subrange(0, i + 1 as int).drop_last() == arr@.subrange(0, i as int));
        }
        i += 1;
    }
    assert(arr@.subrange(0, arr@.len() as int) == arr@);
    s
}

} // verus!
