//! Monoalphabetic substitution with a 26-letter key (position `i` = image of
//! the `i`-th letter).
use vstd::prelude::*;
use crate::algorithms::caesar::{apply, map_char, map_text, plain_alphabet, plain_alphabet_vec};
use crate::algorithms::letters::{
    alphabet_line, spaced, is_letter, is_letter_exec, is_lower, is_upper, letter_index, letter_index_exec, to_lower,
    to_upper, to_upper_exec, upper_at, upper_at_exec,
};
use crate::error::{CalcError, CalcResult};
use crate::text::{Piece, dec, pieces_view, push_char, push_str};
use crate::trace::Trace;
use crate::validation::chars_of;

verus! {

/// The letters of a key, upper-cased, other characters dropped.
pub open spec fn key_letters(s: Seq<char>) -> Seq<char>
    decreases s.len(),
{
    if s.len() == 0 {
        Seq::empty()
    } else if is_letter(s.last()) {
        key_letters(s.drop_last()).push(to_upper(s.last()))
    } else {
        key_letters(s.drop_last())
    }
}

/// The letter at `j` already occurs before `j`.
pub open spec fn repeats_at(u: Seq<char>, j: int) -> bool {
    exists|i: int| 0 <= i < j && u[i] == u[j]
}

/// No letter occurs twice.
pub open spec fn all_distinct(u: Seq<char>) -> bool {
    forall|j: int| 0 <= j < u.len() ==> !#[trigger] repeats_at(u, j)
}

/// `j` is the first position whose letter occurs earlier.
pub open spec fn first_repeat(u: Seq<char>, j: int) -> bool {
    0 <= j < u.len() && repeats_at(u, j) && forall|i: int| 0 <= i < j ==> !#[trigger] repeats_at(u, i)
}

/// The inverse of a key: position `j` holds the letter whose image is the `j`-th letter.
pub open spec fn inverse_key(u: Seq<char>) -> Seq<char> {
    Seq::new(
        26,
        |j: int|
            if exists|i: int| 0 <= i < 26 && u[i] == upper_at(j) {
                upper_at(choose|i: int| 0 <= i < 26 && u[i] == upper_at(j))
            } else {
                'A'
            },
    )
}

proof fn lemma_key_letters_upper(s: Seq<char>)
    ensures
        forall|i: int| 0 <= i < key_letters(s).len() ==> is_upper(#[trigger] key_letters(s)[i]),
    decreases s.len(),
{
    if s.len() > 0 {
        let p = s.drop_last();
        lemma_key_letters_upper(p);
        if is_letter(s.last()) {
            let c = to_upper(s.last());
            assert(is_upper(c));
            assert forall|i: int| 0 <= i < key_letters(s).len() implies is_upper(
                #[trigger] key_letters(s)[i],
            ) by {
                if i < key_letters(p).len() {
                    assert(key_letters(s)[i] == key_letters(p)[i]);
                }
            }
        }
    }
}

/// The message that refuses a key with these letters: their count when it is
/// not 26, else the first letter that occurs twice.
pub open spec fn key_error(u: Seq<char>, m: Seq<char>) -> bool {
    if u.len() != 26 {
        m == "Schlüssel muss 26 Buchstaben enthalten (geliefert: "@ + dec(u.len() as int) + ")"@
    } else {
        exists|j: int| first_repeat(u, j) && m == "Buchstabe '"@ + seq![u[j]]
            + "' kommt mehrfach im Schlüssel vor"@
    }
}

/// Checks the key and returns its 26 upper-case letters.
fn validate_key(key: &str) -> (r: CalcResult<Vec<char>>)
    ensures
        key_letters(key@).len() != 26 ==> (r matches Err(CalcError::UngueltigeEingabe(m)) && m@
            == "Schlüssel muss 26 Buchstaben enthalten (geliefert: "@ + dec(
            key_letters(key@).len() as int,
        ) + ")"@),
        key_letters(key@).len() == 26 && !all_distinct(key_letters(key@)) ==> (r matches Err(
            CalcError::UngueltigeEingabe(m),
        ) && exists|j: int|
            first_repeat(key_letters(key@), j) && m@ == "Buchstabe '"@ + seq![key_letters(key@)[j]]
                + "' kommt mehrfach im Schlüssel vor"@),
        key_letters(key@).len() == 26 && all_distinct(key_letters(key@)) ==> r
            == Ok::<Vec<char>, CalcError>(r->Ok_0) && r->Ok_0@ == key_letters(key@),
{
    let v = chars_of(key);
    let mut upper: Vec<char> = Vec::new();
    let mut i: usize = 0;
    while i < v.len()
        invariant
            v@ == key@,
            i <= v@.len(),
            upper@ == key_letters(key@.take(i as int)),
        decreases v@.len() - i,
    {
        let c = v[i];
        proof {
            assert(key@.take(i + 1 as int).drop_last() == key@.take(i as int));
        }
        if is_letter_exec(c) {
            upper.push(to_upper_exec(c));
        }
        i += 1;
    }
    assert(key@.take(v@.len() as int) == key@);
    proof {
        lemma_key_letters_upper(key@);
    }
    if upper.len() != 26 {
        let mut m = String::from_str("Schlüssel muss 26 Buchstaben enthalten (geliefert: ");
        crate::text::push_int(&mut m, upper.len() as i128);
        push_str(&mut m, ")");
        return Err(CalcError::UngueltigeEingabe(m));
    }
    let ghost u = upper@;
    let mut seen: Vec<bool> = Vec::new();
    let mut x: usize = 0;
    while x < 26
        invariant
            x <= 26,
            seen@.len() == x,
            forall|y: int| 0 <= y < x ==> !#[trigger] seen@[y],
        decreases 26 - x,
    {
        seen.push(false);
        x += 1;
    }
    let mut k: usize = 0;
    while k < 26
        invariant
            u == upper@,
            u == key_letters(key@),
            u.len() == 26,
            forall|i: int| 0 <= i < 26 ==> is_upper(#[trigger] u[i]),
            k <= 26,
            seen@.len() == 26,
            forall|y: int| 0 <= y < 26 ==> (#[trigger] seen@[y] <==> exists|i: int| 0 <= i < k && u[i] == upper_at(y)),
            forall|j: int| 0 <= j < k ==> !#[trigger] repeats_at(u, j),
        decreases 26 - k,
    {
        let c = upper[k];
        let idx = letter_index_exec(c);
        assert(c == upper_at(idx as int));
        if seen[idx] {
            let mut m = String::from_str("Buchstabe '");
            push_char(&mut m, c);
            push_str(&mut m, "' kommt mehrfach im Schlüssel vor");
            proof {
                assert(repeats_at(u, k as int));
                assert(first_repeat(u, k as int));
            }
            return Err(CalcError::UngueltigeEingabe(m));
        }
        proof {
            assert(!repeats_at(u, k as int)) by {
                if repeats_at(u, k as int) {
                    let i = choose|i: int| 0 <= i < k && u[i] == u[k as int];
                    assert(seen@[idx as int]);
                }
            }
            assert forall|y: int| 0 <= y < 26 implies (#[trigger] seen@.update(idx as int, true)[y]
                <==> exists|i: int| 0 <= i < k + 1 && u[i] == upper_at(y)) by {
                if y == idx {
                    assert(u[k as int] == upper_at(y));
                } else {
                    if exists|i: int| 0 <= i < k + 1 && u[i] == upper_at(y) {
                        let i = choose|i: int| 0 <= i < k + 1 && u[i] == upper_at(y);
                        if i == k {
                            assert(upper_at(y) == upper_at(idx as int));
                        }
                    }
                }
            }
        }
        seen.set(idx, true);
        k += 1;
    }
    assert(all_distinct(u));
    Ok(upper)
}

/// Builds the inverse key: position of each letter's image gets the letter.
fn invert(cipher: &Vec<char>) -> (inv: Vec<char>)
    requires
        cipher@.len() == 26,
        forall|i: int| 0 <= i < 26 ==> is_upper(#[trigger] cipher@[i]),
        all_distinct(cipher@),
    ensures
        inv@ == inverse_key(cipher@),
{
    let mut inv: Vec<char> = Vec::new();
    let mut x: usize = 0;
    while x < 26
        invariant
            x <= 26,
            inv@.len() == x,
            forall|y: int| 0 <= y < x ==> #[trigger] inv@[y] == 'A',
        decreases 26 - x,
    {
        inv.push('A');
        x += 1;
    }
    let mut i: usize = 0;
    while i < 26
        invariant
            cipher@.len() == 26,
            forall|i: int| 0 <= i < 26 ==> is_upper(#[trigger] cipher@[i]),
            all_distinct(cipher@),
            i <= 26,
            inv@.len() == 26,
            forall|j: int| 0 <= j < i ==> inv@[letter_index(#[trigger] cipher@[j])] == upper_at(j),
            forall|y: int|
                0 <= y < 26 && !(exists|j: int| 0 <= j < i && cipher@[j] == upper_at(y))
                    ==> #[trigger] inv@[y] == 'A',
        decreases 26 - i,
    {
        let c = cipher[i];
        let idx = letter_index_exec(c);
        let p = upper_at_exec(i as u8);
        proof {
            assert(c == upper_at(idx as int));
            assert forall|j: int| 0 <= j < i implies letter_index(#[trigger] cipher@[j]) != idx by {
                if letter_index(cipher@[j]) == idx {
                    assert(cipher@[j] == upper_at(letter_index(cipher@[j])));
                    assert(repeats_at(cipher@, i as int));
                }
            }
            assert forall|y: int|
                0 <= y < 26 && !(exists|j: int| 0 <= j < i + 1 && cipher@[j] == upper_at(y))
                    implies #[trigger] inv@.update(idx as int, p)[y] == 'A' by {
                if y == idx {
                    assert(cipher@[i as int] == upper_at(y));
                }
            }
        }
        inv.set(idx, p);
        i += 1;
    }
    assert forall|y: int| 0 <= y < 26 implies #[trigger] inv@[y] == inverse_key(cipher@)[y] by {
        if exists|j: int| 0 <= j < 26 && cipher@[j] == upper_at(y) {
            let j = choose|j: int| 0 <= j < 26 && cipher@[j] == upper_at(y);
            assert(letter_index(cipher@[j]) == y);
        }
    }
    assert(inv@ =~= inverse_key(cipher@));
    inv
}

/// A letter mapped by a key and then by the key's inverse comes back unchanged.
proof fn lemma_map_char_inverse(c: char, k: Seq<char>)
    requires
        k.len() == 26,
        forall|i: int| 0 <= i < 26 ==> is_upper(#[trigger] k[i]),
        all_distinct(k),
    ensures
        map_char(map_char(c, k), inverse_key(k)) == c,
{
    if is_letter(c) {
        let x = letter_index(c);
        let d = k[x];
        let y = letter_index(d);
        assert(d == upper_at(y));
        assert(exists|i: int| 0 <= i < 26 && k[i] == upper_at(y));
        let i = choose|i: int| 0 <= i < 26 && k[i] == upper_at(y);
        if i < x {
            assert(repeats_at(k, x));
        }
        if x < i {
            assert(repeats_at(k, i));
        }
        assert(inverse_key(k)[y] == upper_at(x));
        if is_lower(c) {
            let e = map_char(c, k);
            assert(e == to_lower(d));
            assert(letter_index(e) == y);
        }
    }
}

/// Decrypting with a valid key undoes encrypting with it: every text comes back
/// unchanged.
pub proof fn lemma_substitution_roundtrip(text: Seq<char>, key: Seq<char>)
    requires
        key_letters(key).len() == 26,
        all_distinct(key_letters(key)),
    ensures
        map_text(map_text(text, key_letters(key)), inverse_key(key_letters(key))) == text,
{
    let k = key_letters(key);
    lemma_key_letters_upper(key);
    assert forall|i: int| 0 <= i < text.len() implies #[trigger] map_text(
        map_text(text, k),
        inverse_key(k),
    )[i] == text[i] by {
        lemma_map_char_inverse(text[i], k);
    }
    assert(map_text(map_text(text, k), inverse_key(k)) =~= text);
}

/// Substitution encryption: each letter replaced by its image under the key.
pub fn encrypt(text: &str, key: &str) -> (r: CalcResult<Trace>)
    ensures
        key_letters(key@).len() != 26 || !all_distinct(key_letters(key@)) ==> (r matches Err(
            CalcError::UngueltigeEingabe(m),
        ) && key_error(key_letters(key@), m@)),
        key_letters(key@).len() == 26 && all_distinct(key_letters(key@)) ==> (r matches Ok(t)
            && t.algorithm@ == "Substitutions-Verschlüsselung"@ && t.input_list() == seq![
            ("Klartext"@, text@),
            ("Schlüssel"@, key@),
        ] && t.results() == seq![("Chiffrat"@, map_text(text@, key_letters(key@)))]
            && t.well_formed() && t.step_titles() == seq![
            "Mapping (Klartext → Chiffrat)"@,
            "Zeichenweise Substitution"@,
        ] && t.step_lines(0) == seq![
            "Klartext: "@ + spaced(plain_alphabet()),
            "Chiffrat: "@ + spaced(key_letters(key@)),
        ] && t.step_lines(1) == seq!["Resultat: "@ + map_text(text@, key_letters(key@))]
            && t.steps@[0].table is None && t.steps@[1].table is None),
{
    let cipher = match validate_key(key) {
        Ok(c) => c,
        Err(e) => return Err(e),
    };
    let plain = plain_alphabet_vec();
    let mut t = Trace::new("Substitutions-Verschlüsselung");
    t.input("Klartext", text);
    t.input("Schlüssel", key);

    let s1 = t.step("Mapping (Klartext → Chiffrat)");
    let pl = alphabet_line(&plain);
    t.line_of(s1, &[Piece::Text("Klartext: "), Piece::Text(pl.as_str())]);
    let cl = alphabet_line(&cipher);
    t.line_of(s1, &[Piece::Text("Chiffrat: "), Piece::Text(cl.as_str())]);

    let s2 = t.step("Zeichenweise Substitution");
    let out = apply(text, &cipher);
    t.line_of(s2, &[Piece::Text("Resultat: "), Piece::Text(out.as_str())]);
    t.result("Chiffrat", out.as_str());
    proof {
        reveal_with_fuel(pieces_view, 3);
        assert(t.step_titles() =~= seq![
            "Mapping (Klartext → Chiffrat)"@,
            "Zeichenweise Substitution"@,
        ]);
        assert(t.step_lines(0) =~= seq!["Klartext: "@ + pl@, "Chiffrat: "@ + cl@]);
        assert(t.step_lines(1) =~= seq!["Resultat: "@ + out@]);
    }
    Ok(t)
}

/// Substitution decryption with the inverse of the key.
pub fn decrypt(text: &str, key: &str) -> (r: CalcResult<Trace>)
    ensures
        key_letters(key@).len() != 26 || !all_distinct(key_letters(key@)) ==> (r matches Err(
            CalcError::UngueltigeEingabe(m),
        ) && key_error(key_letters(key@), m@)),
        key_letters(key@).len() == 26 && all_distinct(key_letters(key@)) ==> (r matches Ok(t)
            && t.algorithm@ == "Substitutions-Entschlüsselung"@ && t.input_list() == seq![
            ("Chiffrat"@, text@),
            ("Schlüssel"@, key@),
        ] && t.results() == seq![("Klartext"@, map_text(text@, inverse_key(key_letters(key@))))]
            && t.well_formed() && t.step_titles() == seq![
            "Inverses Mapping (Chiffrat → Klartext)"@,
            "Zeichenweise Rück-Substitution"@,
        ] && t.step_lines(0) == seq![
            "Chiffrat: "@ + spaced(plain_alphabet()),
            "Klartext: "@ + spaced(inverse_key(key_letters(key@))),
        ] && t.step_lines(1) == seq![
            "Resultat: "@ + map_text(text@, inverse_key(key_letters(key@))),
        ] && t.steps@[0].table is None && t.steps@[1].table is None),
{
    let cipher = match validate_key(key) {
        Ok(c) => c,
        Err(e) => return Err(e),
    };
    proof {
        lemma_key_letters_upper(key@);
    }
    let plain = plain_alphabet_vec();
    let inv = invert(&cipher);

    let mut t = Trace::new("Substitutions-Entschlüsselung");
    t.input("Chiffrat", text);
    t.input("Schlüssel", key);

    let s1 = t.step("Inverses Mapping (Chiffrat → Klartext)");
    let pl = alphabet_line(&plain);
    t.line_of(s1, &[Piece::Text("Chiffrat: "), Piece::Text(pl.as_str())]);
    let il = alphabet_line(&inv);
    t.line_of(s1, &[Piece::Text("Klartext: "), Piece::Text(il.as_str())]);

    let s2 = t.step("Zeichenweise Rück-Substitution");
    let out = apply(text, &inv);
    t.line_of(s2, &[Piece::Text("Resultat: "), Piece::Text(out.as_str())]);
    t.result("Klartext", out.as_str());
    proof {
        reveal_with_fuel(pieces_view, 3);
        assert(t.step_titles() =~= seq![
            "Inverses Mapping (Chiffrat → Klartext)"@,
            "Zeichenweise Rück-Substitution"@,
        ]);
        assert(t.step_lines(0) =~= seq!["Chiffrat: "@ + pl@, "Klartext: "@ + il@]);
        assert(t.step_lines(1) =~= seq!["Resultat: "@ + out@]);
    }
    Ok(t)
}

} // verus!
