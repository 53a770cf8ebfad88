//! Caesar cipher: every letter shifted by `k` positions, case and other
//! characters kept.
use vstd::prelude::*;
use vstd::arithmetic::div_mod::*;
use crate::algorithms::letters::{
    alphabet_line, spaced, is_letter, is_letter_exec, is_lower, is_lower_exec, letter_index,
    letter_index_exec, to_lower, to_lower_exec, upper_at, upper_at_exec,
};
use crate::error::CalcResult;
use crate::math::rem_euclid;
use crate::text::{Piece, dec, pieces_view, push_char};
use crate::trace::{Table, Trace};
use crate::validation::chars_of;

verus! {

/// The image of one character under a shift by `k` (`0 <= k < 26`).
pub open spec fn shift_char(c: char, k: int) -> char {
    if is_letter(c) {
        let mapped = upper_at((letter_index(c) + k) % 26);
        if is_lower(c) {
            to_lower(mapped)
        } else {
            mapped
        }
    } else {
        c
    }
}

/// A text shifted by `k`.
pub open spec fn shift_text(s: Seq<char>, k: int) -> Seq<char> {
    Seq::new(s.len(), |i: int| shift_char(s[i], k))
}

/// The alphabet shifted by `k`: position `i` holds the image of the `i`-th letter.
pub open spec fn shift_mapping(k: int) -> Seq<char> {
    Seq::new(26, |i: int| upper_at((i + k) % 26))
}

/// The plain alphabet A..Z.
pub open spec fn plain_alphabet() -> Seq<char> {
    Seq::new(26, |i: int| upper_at(i))
}

fn normalize_shift(shift: i128) -> (k: u8)
    ensures
        k == shift % 26,
        k < 26,
{
    rem_euclid(shift, 26) as u8
}

fn build_mapping(k: u8) -> (m: Vec<char>)
    requires
        k < 26,
    ensures
        m@ == shift_mapping(k as int),
{
    let mut m: Vec<char> = Vec::new();
    let mut i: u8 = 0;
    while i < 26
        invariant
            i <= 26,
            k < 26,
            m@ == shift_mapping(k as int).take(i as int),
        decreases 26 - i,
    {
        let c = upper_at_exec((i + k) % 26);
        m.push(c);
        proof {
            assert(shift_mapping(k as int).take(i + 1 as int) == shift_mapping(k as int).take(i as int).push(c));
        }
        i += 1;
    }
    m
}

pub fn plain_alphabet_vec() -> (m: Vec<char>)
    ensures
        m@ == plain_alphabet(),
{
    let mut m: Vec<char> = Vec::new();
    let mut i: u8 = 0;
    while i < 26
        invariant
            i <= 26,
            m@ == plain_alphabet().take(i as int),
        decreases 26 - i,
    {
        let c = upper_at_exec(i);
        m.push(c);
        proof {
            assert(plain_alphabet().take(i + 1 as int) == plain_alphabet().take(i as int).push(c));
        }
        i += 1;
    }
    m
}

/// Applies a letter mapping (position `i` = image of the `i`-th letter) to a
/// text, keeping case and non-letters.
pub open spec fn map_char(c: char, mapping: Seq<char>) -> char {
    if is_letter(c) {
        if is_lower(c) {
            to_lower(mapping[letter_index(c)])
        } else {
            mapping[letter_index(c)]
        }
    } else {
        c
    }
}

pub open spec fn map_text(s: Seq<char>, mapping: Seq<char>) -> Seq<char> {
    Seq::new(s.len(), |i: int| map_char(s[i], mapping))
}

/// Applies a 26-letter mapping to every letter of the text.
pub fn apply(text: &str, mapping: &Vec<char>) -> (out: String)
    requires
        mapping@.len() == 26,
    ensures
        out@ == map_text(text@, mapping@),
{
    let v = chars_of(text);
    let mut out = String::new();
    let mut i: usize = 0;
    while i < v.len()
        invariant
            v@ == text@,
            mapping@.len() == 26,
            i <= v@.len(),
            out@ == map_text(text@, mapping@).take(i as int),
        decreases v@.len() - i,
    {
        let ch = v[i];
        let c = if is_letter_exec(ch) {
            let was_lower = is_lower_exec(ch);
            let idx = letter_index_exec(ch);
            let mapped = mapping[idx];
            if was_lower {
                to_lower_exec(mapped)
            } else {
                mapped
            }
        } else {
            ch
        };
        push_char(&mut out, c);
        proof {
            assert(map_text(text@, mapping@).take(i + 1 as int) == map_text(text@, mapping@).take(
                i as int,
            ).push(c));
        }
        i += 1;
    }
    assert(map_text(text@, mapping@).take(v@.len() as int) == map_text(text@, mapping@));
    out
}

/// Mapping through the shifted alphabet is the shift.
proof fn lemma_map_is_shift(s: Seq<char>, k: int)
    requires
        0 <= k < 26,
    ensures
        map_text(s, shift_mapping(k)) == shift_text(s, k),
{
    assert forall|i: int| 0 <= i < s.len() implies map_char(s[i], shift_mapping(k)) == shift_char(
        s[i],
        k,
    ) by {
        let c = s[i];
        if is_letter(c) {
            assert(0 <= letter_index(c) < 26);
        }
    }
    assert(map_text(s, shift_mapping(k)) =~= shift_text(s, k));
}

fn char_string(c: char) -> (s: String)
    ensures
        s@ == seq![c],
{
    let mut s = String::new();
    push_char(&mut s, c);
    s
}

/// Row `i` of the shift table: letter, index, the sum modulo 26, image.
pub open spec fn shift_row(i: int, k: int) -> Seq<Seq<char>> {
    seq![
        seq![upper_at(i)],
        dec(i),
        "("@ + dec(i) + " + "@ + dec(k) + ") mod 26 = "@ + dec((i + k) % 26),
        seq![upper_at((i + k) % 26)],
    ]
}

/// The headers of the shift table.
pub open spec fn shift_headers() -> Seq<Seq<char>> {
    seq!["Klartext"@, "Index"@, "Berechnung"@, "Chiffrat"@]
}

fn shift_table(k: u8) -> (t: Table)
    requires
        k < 26,
    ensures
        t.header_view() == shift_headers(),
        t.rows_view() == Seq::new(26, |i: int| shift_row(i, k as int)),
{
    let mut rows: Vec<Vec<String>> = Vec::new();
    let mut i: u8 = 0;
    while i < 26
        invariant
            k < 26,
            i <= 26,
            rows@.len() == i,
            forall|j: int| 0 <= j < i ==> (#[trigger] rows@[j])@.map_values(|c: String| c@)
                == shift_row(j, k as int),
        decreases 26 - i,
    {
        let plain = upper_at_exec(i);
        let cipher_idx = (i + k) % 26;
        let cipher = upper_at_exec(cipher_idx);
        let mut row: Vec<String> = Vec::new();
        row.push(char_string(plain));
        row.push(crate::text::int_text(i as i128));
        row.push(
            crate::text::render(
                &[
                    Piece::Text("("),
                    Piece::Num(i as i128),
                    Piece::Text(" + "),
                    Piece::Num(k as i128),
                    Piece::Text(") mod 26 = "),
                    Piece::Num(cipher_idx as i128),
                ],
            ),
        );
        row.push(char_string(cipher));
        proof {
            reveal_with_fuel(pieces_view, 7);
            assert(row@.map_values(|c: String| c@) =~= shift_row(i as int, k as int));
        }
        rows.push(row);
        i += 1;
    }
    let mut headers: Vec<String> = Vec::new();
    headers.push(String::from_str("Klartext"));
    headers.push(String::from_str("Index"));
    headers.push(String::from_str("Berechnung"));
    headers.push(String::from_str("Chiffrat"));
    let t = Table { headers, rows };
    assert(t.header_view() =~= shift_headers());
    assert(t.rows_view() =~= Seq::new(26, |i: int| shift_row(i, k as int)));
    t
}

/// Caesar encryption `c_i = (p_i + k) mod 26`.
pub fn encrypt(text: &str, shift: i128) -> (r: CalcResult<Trace>)
    ensures
        r matches Ok(t) && t.algorithm@ == "Caesar-Verschlüsselung"@ && t.input_list() == seq![
            ("Klartext"@, text@),
            ("Verschiebung k"@, dec(shift as int)),
        ] && t.results() == seq![("Chiffrat"@, shift_text(text@, (shift as int) % 26))] && t.well_formed()
            && t.step_titles() == seq![
            "Verschiebung normalisieren"@,
            "Mapping (Klartext → Chiffrat)"@,
            "Zeichenweise Substitution"@,
        ] && t.step_lines(0) == seq!["k = "@ + dec(shift as int) + " mod 26 = "@ + dec((shift as int) % 26)]
            && t.step_lines(1) == seq![
            "Klartext: "@ + spaced(plain_alphabet()),
            "Chiffrat: "@ + spaced(shift_mapping((shift as int) % 26)),
        ] && t.step_lines(2) == seq!["Resultat: "@ + shift_text(text@, (shift as int) % 26)]
            && t.steps@[0].table is None && t.steps@[2].table is None && (t.steps@[1].table matches Some(
            tb,
        ) && tb.header_view() == shift_headers() && tb.rows_view() == Seq::new(
            26,
            |i: int| shift_row(i, (shift as int) % 26),
        )),
{
    let k = normalize_shift(shift);
    let mapping = build_mapping(k);
    let plain = plain_alphabet_vec();

    let mut t = Trace::new("Caesar-Verschlüsselung");
    t.input("Klartext", text);
    t.input_int("Verschiebung k", shift);

    let s1 = t.step("Verschiebung normalisieren");
    t.line_of(s1, &[Piece::Text("k = "), Piece::Num(shift), Piece::Text(" mod 26 = "), Piece::Num(k as i128)]);

    let s2 = t.step("Mapping (Klartext → Chiffrat)");
    let pl = alphabet_line(&plain);
    t.line_of(s2, &[Piece::Text("Klartext: "), Piece::Text(pl.as_str())]);
    let cl = alphabet_line(&mapping);
    t.line_of(s2, &[Piece::Text("Chiffrat: "), Piece::Text(cl.as_str())]);
    t.table(s2, shift_table(k));

    let s3 = t.step("Zeichenweise Substitution");
    let out = apply(text, &mapping);
    proof {
        lemma_map_is_shift(text@, k as int);
    }
    t.line_of(s3, &[Piece::Text("Resultat: "), Piece::Text(out.as_str())]);

    t.result("Chiffrat", out.as_str());
    proof {
        reveal_with_fuel(pieces_view, 5);
        assert(t.step_titles() =~= seq![
            "Verschiebung normalisieren"@,
            "Mapping (Klartext → Chiffrat)"@,
            "Zeichenweise Substitution"@,
        ]);
        assert(t.step_lines(0) =~= seq!["k = "@ + dec(shift as int) + " mod 26 = "@ + dec(k as int)]);
        assert(t.step_lines(1) =~= seq!["Klartext: "@ + pl@, "Chiffrat: "@ + cl@]);
        assert(t.step_lines(2) =~= seq!["Resultat: "@ + out@]);
    }
    Ok(t)
}

/// Caesar decryption `p_i = (c_i - k) mod 26`.
pub fn decrypt(text: &str, shift: i128) -> (r: CalcResult<Trace>)
    ensures
        r matches Ok(t) && t.algorithm@ == "Caesar-Entschlüsselung"@ && t.input_list() == seq![
            ("Chiffrat"@, text@),
            ("Verschiebung k"@, dec(shift as int)),
        ] && t.results() == seq![("Klartext"@, shift_text(text@, (-((shift as int) % 26)) % 26))]
            && t.well_formed() && t.step_titles() == seq![
            "Verschiebung normalisieren"@,
            "Inverses Mapping (Chiffrat → Klartext)"@,
            "Zeichenweise Rück-Substitution"@,
        ] && t.step_lines(0) == seq![
            "k = "@ + dec(shift as int) + " mod 26 = "@ + dec((shift as int) % 26),
            "Rück-Verschiebung: −k mod 26 = "@ + dec((-((shift as int) % 26)) % 26),
        ] && t.step_lines(1) == seq![
            "Chiffrat: "@ + spaced(plain_alphabet()),
            "Klartext: "@ + spaced(shift_mapping((-((shift as int) % 26)) % 26)),
        ] && t.step_lines(2) == seq![
            "Resultat: "@ + shift_text(text@, (-((shift as int) % 26)) % 26),
        ] && t.steps@[0].table is None && t.steps@[2].table is None && (t.steps@[1].table matches Some(
            tb,
        ) && tb.header_view() == shift_headers() && tb.rows_view() == Seq::new(
            26,
            |i: int| shift_row(i, (-((shift as int) % 26)) % 26),
        )),
{
    let k = normalize_shift(shift);
    let inv_k = normalize_shift(-(k as i128));
    let mapping = build_mapping(inv_k);
    let plain = plain_alphabet_vec();

    let mut t = Trace::new("Caesar-Entschlüsselung");
    t.input("Chiffrat", text);
    t.input_int("Verschiebung k", shift);

    let s1 = t.step("Verschiebung normalisieren");
    t.line_of(s1, &[Piece::Text("k = "), Piece::Num(shift), Piece::Text(" mod 26 = "), Piece::Num(k as i128)]);
    t.line_of(s1, &[Piece::Text("Rück-Verschiebung: −k mod 26 = "), Piece::Num(inv_k as i128)]);

    let s2 = t.step("Inverses Mapping (Chiffrat → Klartext)");
    let pl = alphabet_line(&plain);
    t.line_of(s2, &[Piece::Text("Chiffrat: "), Piece::Text(pl.as_str())]);
    let cl = alphabet_line(&mapping);
    t.line_of(s2, &[Piece::Text("Klartext: "), Piece::Text(cl.as_str())]);
    t.table(s2, shift_table(inv_k));

    let s3 = t.step("Zeichenweise Rück-Substitution");
    let out = apply(text, &mapping);
    proof {
        lemma_map_is_shift(text@, inv_k as int);
    }
    t.line_of(s3, &[Piece::Text("Resultat: "), Piece::Text(out.as_str())]);

    t.result("Klartext", out.as_str());
    proof {
        reveal_with_fuel(pieces_view, 5);
        assert(t.step_titles() =~= seq![
            "Verschiebung normalisieren"@,
            "Inverses Mapping (Chiffrat → Klartext)"@,
            "Zeichenweise Rück-Substitution"@,
        ]);
        assert(t.step_lines(0) =~= seq![
            "k = "@ + dec(shift as int) + " mod 26 = "@ + dec(k as int),
            "Rück-Verschiebung: −k mod 26 = "@ + dec(inv_k as int),
        ]);
        assert(t.step_lines(1) =~= seq!["Chiffrat: "@ + pl@, "Klartext: "@ + cl@]);
        assert(t.step_lines(2) =~= seq!["Resultat: "@ + out@]);
    }
    Ok(t)
}

/// Shifting back by `-k mod 26` undoes a shift by `k mod 26`.
pub proof fn lemma_caesar_roundtrip(s: Seq<char>, shift: int)
    ensures
        shift_text(shift_text(s, shift % 26), (-(shift % 26)) % 26) == s,
{
    let k = shift % 26;
    let j = (-k) % 26;
    lemma_mod_bound(shift, 26);
    lemma_mod_bound(-k, 26);
    assert forall|i: int| 0 <= i < s.len() implies #[trigger] shift_char(shift_char(s[i], k), j)
        == s[i] by {
        let c = s[i];
        if is_letter(c) {
            let x = letter_index(c);
            let y = (x + k) % 26;
            lemma_mod_bound(x + k, 26);
            lemma_add_mod_noop(x + k, -k, 26);
            lemma_add_mod_noop_right(y, -k, 26);
            lemma_mod_twice(x + k, 26);
            lemma_small_mod(x as nat, 26);
            assert((y + j) % 26 == x) by {
                lemma_add_mod_noop(y, -k, 26);
                lemma_add_mod_noop(x + k, -k, 26);
            }
        }
    }
    assert(shift_text(shift_text(s, k), j) =~= s);
}

} // verus!
