//! Letter frequency analysis of a monoalphabetic cipher text against German
//! or English reference frequencies.
use vstd::prelude::*;
use vstd::arithmetic::power2::*;
use crate::algorithms::letters::{
    is_letter, is_letter_exec, is_lower, is_lower_exec, letter_index, letter_index_exec, to_lower,
    to_lower_exec, upper_at, upper_at_exec,
};
use crate::error::{CalcError, CalcResult};
use crate::text::{dec, digit_char, push_char, push_str, uint_text};
use crate::trace::{Table, Trace};
use crate::validation::{chars_of, text_eq, trim, trimmed};

verus! {

/// What `str::to_lowercase` returns for a text.
pub uninterp spec fn lowercase_of(s: Seq<char>) -> Seq<char>;

/// `str::to_lowercase`: the Unicode lowercase mapping of the whole text. The
/// mapping itself (which characters change and into what) is not stated here.
#[verifier::external_body]
pub(crate) fn to_lowercase(s: &str) -> (r: String)
    ensures
        r@ == lowercase_of(s@),
{
    s.to_lowercase()
}

/// The language key: the trimmed, lower-cased language name.
pub open spec fn language_key(language: Seq<char>) -> Seq<char> {
    lowercase_of(trimmed(language))
}

/// Names accepted for German (the empty name included).
pub open spec fn is_german(key: Seq<char>) -> bool {
    key == "de"@ || key == "deu"@ || key == "deutsch"@ || key == "german"@ || key == ""@
}

/// Names accepted for English.
pub open spec fn is_english(key: Seq<char>) -> bool {
    key == "en"@ || key == "eng"@ || key == "englisch"@ || key == "english"@
}

/// German letter frequencies in hundredths of a percent, most frequent first.
pub open spec fn freq_de() -> Seq<(char, int)> {
    seq![
        ('E', 1740), ('N', 978), ('I', 755), ('S', 727), ('R', 700), ('A', 651), ('T', 615),
        ('D', 508), ('H', 476), ('U', 435), ('L', 344), ('C', 306), ('G', 301), ('M', 253),
        ('O', 251), ('B', 189), ('W', 189), ('F', 166), ('K', 121), ('Z', 113), ('P', 79),
        ('V', 67), ('J', 27), ('Y', 4), ('X', 3), ('Q', 2),
    ]
}

/// English letter frequencies in hundredths of a percent, most frequent first.
pub open spec fn freq_en() -> Seq<(char, int)> {
    seq![
        ('E', 1270), ('T', 906), ('A', 817), ('O', 751), ('I', 697), ('N', 675), ('S', 633),
        ('H', 609), ('R', 599), ('D', 425), ('L', 403), ('C', 278), ('U', 276), ('M', 241),
        ('W', 236), ('F', 223), ('G', 202), ('Y', 197), ('P', 193), ('B', 149), ('V', 98),
        ('K', 77), ('J', 15), ('X', 15), ('Q', 10), ('Z', 7),
    ]
}

fn reference_table(german: bool) -> (v: Vec<(char, u32)>)
    ensures
        v@.len() == 26,
        forall|i: int|
            0 <= i < 26 ==> (#[trigger] v@[i]).0 == (if german {
                freq_de()
            } else {
                freq_en()
            })[i].0 && v@[i].1 as int == (if german {
                freq_de()
            } else {
                freq_en()
            })[i].1,
{
    if german {
        let v: Vec<(char, u32)> = vec![
            ('E', 1740), ('N', 978), ('I', 755), ('S', 727), ('R', 700), ('A', 651), ('T', 615),
            ('D', 508), ('H', 476), ('U', 435), ('L', 344), ('C', 306), ('G', 301), ('M', 253),
            ('O', 251), ('B', 189), ('W', 189), ('F', 166), ('K', 121), ('Z', 113), ('P', 79),
            ('V', 67), ('J', 27), ('Y', 4), ('X', 3), ('Q', 2),
        ];
        v
    } else {
        let v: Vec<(char, u32)> = vec![
            ('E', 1270), ('T', 906), ('A', 817), ('O', 751), ('I', 697), ('N', 675), ('S', 633),
            ('H', 609), ('R', 599), ('D', 425), ('L', 403), ('C', 278), ('U', 276), ('M', 241),
            ('W', 236), ('F', 223), ('G', 202), ('Y', 197), ('P', 193), ('B', 149), ('V', 98),
            ('K', 77), ('J', 15), ('X', 15), ('Q', 10), ('Z', 7),
        ];
        v
    }
}

/// The reference table for a language key (already trimmed and lower-cased):
/// `true` for German, `false` for English, with the label shown in the trace.
pub fn reference_for_key(k: &str) -> (r: CalcResult<(&'static str, bool)>)
    ensures
        is_german(k@) ==> (r matches Ok((l, g)) && l@ == "Deutsch"@ && g),
        !is_german(k@) && is_english(k@) ==> (r matches Ok((l, g)) && l@ == "Englisch"@ && !g),
        !is_german(k@) && !is_english(k@) ==> (r matches Err(CalcError::UngueltigeEingabe(m))
            && m@ == "Sprache '"@ + k@ + "' nicht unterstützt (de oder en)"@),
{
    if text_eq(k, "de") || text_eq(k, "deu") || text_eq(k, "deutsch") || text_eq(k, "german")
        || text_eq(k, "") {
        return Ok(("Deutsch", true));
    }
    if text_eq(k, "en") || text_eq(k, "eng") || text_eq(k, "englisch") || text_eq(k, "english") {
        return Ok(("Englisch", false));
    }
    let mut m = String::from_str("Sprache '");
    push_str(&mut m, k);
    push_str(&mut m, "' nicht unterstützt (de oder en)");
    Err(CalcError::UngueltigeEingabe(m))
}

/// Chooses the reference table for a language name, read trimmed and lower-cased.
fn pick_reference(language: &str) -> (r: CalcResult<(&'static str, bool)>)
    ensures
        is_german(language_key(language@)) ==> (r matches Ok((l, g)) && l@ == "Deutsch"@ && g),
        !is_german(language_key(language@)) && is_english(language_key(language@)) ==> (r matches Ok(
            (l, g),
        ) && l@ == "Englisch"@ && !g),
        !is_german(language_key(language@)) && !is_english(language_key(language@)) ==> (r matches Err(
            CalcError::UngueltigeEingabe(m),
        ) && m@ == "Sprache '"@ + language_key(language@) + "' nicht unterstützt (de oder en)"@),
{
    let key = to_lowercase(trim(language));
    reference_for_key(key.as_str())
}

/// How often letter `i` (either case) occurs in the text.
pub open spec fn letter_count(s: Seq<char>, i: int) -> int
    decreases s.len(),
{
    if s.len() == 0 {
        0
    } else {
        letter_count(s.drop_last(), i) + if is_letter(s.last()) && letter_index(s.last()) == i {
            1int
        } else {
            0int
        }
    }
}

/// How many letters the text holds.
pub open spec fn letter_total(s: Seq<char>) -> int
    decreases s.len(),
{
    if s.len() == 0 {
        0
    } else {
        letter_total(s.drop_last()) + if is_letter(s.last()) {
            1int
        } else {
            0int
        }
    }
}

/// Counting ignores case: the count of letter `i` is the number of positions
/// holding its capital or its small form, and the total is the number of
/// positions holding an ASCII letter.
pub proof fn lemma_counts_ignore_case(s: Seq<char>, i: int)
    requires
        0 <= i < 26,
    ensures
        letter_count(s, i) == s.filter(|c: char| c as int == 65 + i || c as int == 97 + i).len(),
        letter_total(s) == s.filter(
            |c: char| (65 <= c as int && c as int <= 90) || (97 <= c as int && c as int <= 122),
        ).len(),
    decreases s.len(),
{
    reveal(Seq::filter);
    if s.len() > 0 {
        lemma_counts_ignore_case(s.drop_last(), i);
    }
}

/// The 26 letter counts of the text.
pub open spec fn counts_of(s: Seq<char>) -> Seq<int> {
    Seq::new(26, |i: int| letter_count(s, i))
}

/// Letter `d` comes before letter `c`: more frequent, or as frequent and earlier
/// in the alphabet.
pub open spec fn before(cnt: Seq<int>, d: int, c: int) -> bool {
    cnt[d] > cnt[c] || (cnt[d] == cnt[c] && d < c)
}

/// How many letters below `m` come before `c`.
pub open spec fn rank_below(cnt: Seq<int>, c: int, m: int) -> int
    decreases m,
{
    if m <= 0 {
        0
    } else {
        rank_below(cnt, c, m - 1) + if before(cnt, m - 1, c) {
            1int
        } else {
            0int
        }
    }
}

/// The position of letter `c` in the order by frequency.
pub open spec fn rank(cnt: Seq<int>, c: int) -> int {
    rank_below(cnt, c, 26)
}

/// Some letter has rank `r`.
pub open spec fn has_rank(cnt: Seq<int>, r: int) -> bool {
    exists|c: int| 0 <= c < 26 && #[trigger] rank(cnt, c) == r
}

/// The letter with rank `r`.
pub open spec fn letter_at_rank(cnt: Seq<int>, r: int) -> int {
    choose|c: int| 0 <= c < 26 && #[trigger] rank(cnt, c) == r
}

/// The letters that occur, by rank below `m`.
pub open spec fn order_below(cnt: Seq<int>, m: int) -> Seq<int>
    decreases m,
{
    if m <= 0 {
        Seq::empty()
    } else if has_rank(cnt, m - 1) && cnt[letter_at_rank(cnt, m - 1)] > 0 {
        order_below(cnt, m - 1).push(letter_at_rank(cnt, m - 1))
    } else {
        order_below(cnt, m - 1)
    }
}

/// The letters that occur, most frequent first, ties in alphabetical order.
pub open spec fn cipher_order(cnt: Seq<int>) -> Seq<int> {
    order_below(cnt, 26)
}

/// `a / b` for `b > 0`, rounded to the nearest integer, ties to the even one.
pub open spec fn div_round_even(a: int, b: int) -> int {
    let q = a / b;
    let r = a % b;
    if 2 * r > b || (2 * r == b && q % 2 == 1) {
        q + 1
    } else {
        q
    }
}

/// The binary exponent that scales `num / den` into `[2^52, 2^53)`: the least
/// `e >= from` (up to 128) with `num · 2^e >= 2^52 · den`.
pub open spec fn binary_scale(num: int, den: int, from: nat) -> nat
    decreases 128 - from,
{
    if from >= 128 || num * pow2(from) >= pow2(52) * den {
        from
    } else {
        binary_scale(num, den, from + 1)
    }
}

/// The share `n / total` in hundredths of a percent as a double computes and
/// shows it: `100·n / total` rounded to the nearest double (53-bit significand,
/// ties to even), whose exact value is then rounded to hundredths, ties to even.
pub open spec fn pct_hundredths(n: int, total: int) -> int {
    let num = 100 * n;
    let e = binary_scale(num, total, 0);
    let m = div_round_even(num * pow2(e), total);
    div_round_even(100 * m, pow2(e) as int)
}

/// Rounding `a <= c·b` by `b` gives at most `c`.
proof fn lemma_round_even_le(a: int, b: int, c: int)
    requires
        b > 0,
        0 <= a <= c * b,
    ensures
        0 <= div_round_even(a, b) <= c,
{
    let q = a / b;
    let r = a % b;
    assert(a == b * q + r && 0 <= r < b) by (nonlinear_arith) requires b > 0, q == a / b, r == a % b;
    assert(q <= c) by (nonlinear_arith) requires a == b * q + r, 0 <= r < b, a <= c * b, b > 0;
    assert(q >= 0) by (nonlinear_arith) requires a == b * q + r, 0 <= r < b, a >= 0, b > 0;
    if q == c {
        assert(r == 0) by (nonlinear_arith) requires a == b * q + r, 0 <= r, a <= c * b, q == c;
    }
}

/// A number of hundredths shown with two decimals.
pub open spec fn pct_text(h: int) -> Seq<char> {
    dec(h / 100) + seq!['.', digit_char((h % 100) / 10), digit_char(h % 10)]
}

/// The reference table of the chosen language.
pub open spec fn reference_of(german: bool) -> Seq<(char, int)> {
    if german {
        freq_de()
    } else {
        freq_en()
    }
}

/// The reference letter proposed for letter `idx`: that of the same rank
/// among the letters that occur, if `idx` occurs.
pub open spec fn proposal(cnt: Seq<int>, german: bool, idx: int) -> Option<char> {
    if exists|k: int| 0 <= k < cipher_order(cnt).len() && cipher_order(cnt)[k] == idx {
        Some(
            reference_of(german)[choose|k: int|
                0 <= k < cipher_order(cnt).len() && cipher_order(cnt)[k] == idx].0,
        )
    } else {
        None
    }
}

/// The rough translation of one character: letters replaced by their proposal
/// (case kept), '_' where there is none, other characters kept.
pub open spec fn preview_char(cnt: Seq<int>, german: bool, ch: char) -> char {
    if is_letter(ch) {
        match proposal(cnt, german, letter_index(ch)) {
            Some(p) => if is_lower(ch) {
                to_lower(p)
            } else {
                p
            },
            None => '_',
        }
    } else {
        ch
    }
}

/// The rough translation of the text.
pub open spec fn preview(s: Seq<char>, german: bool) -> Seq<char> {
    Seq::new(s.len(), |k: int| preview_char(counts_of(s), german, s[k]))
}

/// Row of the cipher table for letter `c`.
pub open spec fn cipher_row(cnt: Seq<int>, total: int, c: int) -> Seq<Seq<char>> {
    seq![seq![upper_at(c)], dec(cnt[c]), pct_text(pct_hundredths(cnt[c], total))]
}

/// Row of the reference table.
pub open spec fn reference_row(e: (char, int)) -> Seq<Seq<char>> {
    seq![seq![e.0], pct_text(e.1)]
}

/// Row of the proposal table for rank `k`.
pub open spec fn mapping_row(cnt: Seq<int>, total: int, german: bool, k: int) -> Seq<Seq<char>> {
    let c = cipher_order(cnt)[k];
    seq![
        dec(k + 1),
        seq![upper_at(c)],
        pct_text(pct_hundredths(cnt[c], total)),
        seq![reference_of(german)[k].0],
        pct_text(reference_of(german)[k].1),
    ]
}

proof fn lemma_rank_bounds(cnt: Seq<int>, c: int, m: int)
    requires
        0 <= m <= 26,
    ensures
        0 <= rank_below(cnt, c, m) <= m,
        0 <= c < m ==> rank_below(cnt, c, m) <= m - 1,
    decreases m,
{
    if m > 0 {
        lemma_rank_bounds(cnt, c, m - 1);
    }
}

/// A letter that comes before another has a smaller rank.
proof fn lemma_rank_order(cnt: Seq<int>, c: int, d: int, m: int)
    requires
        before(cnt, c, d),
        0 <= m <= 26,
    ensures
        rank_below(cnt, c, m) + (if 0 <= c < m {
            1int
        } else {
            0int
        }) <= rank_below(cnt, d, m),
    decreases m,
{
    if m > 0 {
        lemma_rank_order(cnt, c, d, m - 1);
    }
}

/// Different letters have different ranks, all below 26.
proof fn lemma_rank_injective(cnt: Seq<int>, c: int, d: int)
    requires
        0 <= c < 26,
        0 <= d < 26,
        c != d,
    ensures
        rank(cnt, c) != rank(cnt, d),
        0 <= rank(cnt, c) < 26,
{
    lemma_rank_bounds(cnt, c, 26);
    if before(cnt, c, d) {
        lemma_rank_order(cnt, c, d, 26);
    } else {
        lemma_rank_order(cnt, d, c, 26);
    }
}

/// `{h / 100}.{h % 100}` with two decimals.
fn pct_string(h: u64) -> (s: String)
    ensures
        s@ == pct_text(h as int),
{
    let mut s = uint_text((h / 100) as u128);
    push_char(&mut s, '.');
    let t = h % 100;
    push_char(&mut s, (48u8 + (t / 10) as u8) as char);
    push_char(&mut s, (48u8 + (t % 10) as u8) as char);
    s
}

fn pct_value(n: u64, total: u64) -> (h: u64)
    requires
        0 < total,
        n <= total,
        total <= u32::MAX,
    ensures
        h == pct_hundredths(n as int, total as int),
        h <= 10000,
{
    let ghost e0 = binary_scale(100 * n, total as int, 0);
    if n == 0 {
        proof {
            lemma_pow2_pos(e0);
            assert(0 * pow2(e0) == 0);
            assert(div_round_even(0, total as int) == 0);
            assert(div_round_even(0, pow2(e0) as int) == 0);
        }
        return 0;
    }
    let num: u128 = 100 * (n as u128);
    let den: u128 = total as u128;
    proof {
        lemma2_to64();
        lemma2_to64_rest();
        lemma_pow2_adds(52, 32);
    }
    let lim: u128 = den * 0x10000000000000;
    assert(pow2(84) == 0x1000000000000000000000);
    assert(lim <= pow2(84)) by (nonlinear_arith)
        requires lim == den * 0x10000000000000, den <= 0x100000000, pow2(84) == 0x10000000000000 * 0x100000000;
    let mut v: u128 = num;
    let mut p2: u128 = 1;
    let mut e: u64 = 0;
    while v < lim
        invariant
            100 <= num,
            num == 100 * n,
            den == total,
            0 < den <= u32::MAX,
            lim == pow2(52) * den,
            lim <= pow2(84),
            pow2(84) == 0x1000000000000000000000,
            e <= 84,
            p2 == pow2(e as nat),
            p2 >= 1,
            v == num * p2,
            v < 2 * lim,
            binary_scale(num as int, den as int, e as nat) == e0,
        decreases 84 - e,
    {
        proof {
            assert(p2 <= v) by (nonlinear_arith) requires v == num * p2, num >= 100, p2 >= 0;
            if e > 84 {
                lemma_pow2_strictly_increases(84, e as nat);
            }
            assert(e < 84);
            lemma_pow2_unfold((e + 1) as nat);
            assert(!(num * pow2(e as nat) >= pow2(52) * den));
        }
        let ghost p_old = p2;
        v = v * 2;
        p2 = p2 * 2;
        e = e + 1;
        assert(v == num * p2) by (nonlinear_arith) requires v == 2 * (num * p_old), p2 == 2 * p_old;
    }
    assert(p2 <= v) by (nonlinear_arith) requires v == num * p2, num >= 100, p2 >= 0;
    let q = v / den;
    let r = v % den;
    let m: u128 = if 2 * r > den || (2 * r == den && q % 2 == 1) { q + 1 } else { q };
    proof {
        lemma_pow2_pos(e as nat);
        assert(v == num * pow2(e as nat));
        assert(v <= 100 * p2 * den) by (nonlinear_arith)
            requires v == 100 * n * p2, n <= den, p2 > 0;
        lemma_round_even_le(v as int, den as int, 100 * p2);
        assert(m == div_round_even(v as int, den as int));
    }
    let mm = 100 * m;
    let q2 = mm / p2;
    let r2 = mm % p2;
    assert(q2 <= mm) by (nonlinear_arith) requires q2 == mm / p2, p2 >= 1, mm >= 0;
    let h: u128 = if 2 * r2 > p2 || (2 * r2 == p2 && q2 % 2 == 1) { q2 + 1 } else { q2 };
    proof {
        lemma_round_even_le(mm as int, p2 as int, 10000);
        assert(h == div_round_even(mm as int, p2 as int));
    }
    h as u64
}

/// Letter frequency analysis: counts of the cipher letters, the reference
/// frequencies, and the proposal that maps the `k`-th most frequent cipher
/// letter to the `k`-th most frequent letter of the language.
pub fn analyze(text: &str, language: &str) -> (r: CalcResult<Trace>)
    requires
        text@.len() <= u32::MAX,
    ensures
        !is_german(language_key(language@)) && !is_english(language_key(language@)) ==> (r matches Err(
            CalcError::UngueltigeEingabe(m),
        ) && m@ == "Sprache '"@ + language_key(language@) + "' nicht unterstützt (de oder en)"@),
        (is_german(language_key(language@)) || is_english(language_key(language@)))
            && letter_total(text@) == 0 ==> (r matches Err(CalcError::UngueltigeEingabe(m)) && m@
            == "Text enthält keine Buchstaben"@),
        (is_german(language_key(language@)) || is_english(language_key(language@)))
            && letter_total(text@) > 0 ==> (r matches Ok(t) && ({
            let german = is_german(language_key(language@));
            let cnt = counts_of(text@);
            let total = letter_total(text@);
            let order = cipher_order(cnt);
            &&& t.algorithm@ == "Häufigkeitsanalyse"@
            &&& t.input_list() == seq![
                ("Geheimtext"@, text@),
                ("Sprache"@, if german { "Deutsch"@ } else { "Englisch"@ }),
                ("Buchstaben gesamt"@, dec(total)),
            ]
            &&& t.results() == seq![("Vorschlag (Roh-Übersetzung)"@, preview(text@, german))]
            &&& t.step_lines(3) == seq![preview(text@, german)]
            &&& t.step_titles() == seq![
                "Buchstabenhäufigkeit im Geheimtext (absteigend)"@,
                "Referenzhäufigkeiten ("@ + (if german { "Deutsch"@ } else { "Englisch"@ }) + ")"@,
                "Vorschlag: häufigster Chiffre- → häufigster Referenzbuchstabe"@,
                "Roh-Übersetzung mit Vorschlag (unbekannte Buchstaben als '_')"@,
            ]
            &&& t.step_lines(0).len() == 0 && t.step_lines(1).len() == 0 && t.step_lines(2).len() == 0
            &&& t.steps@[3].table is None
            &&& t.well_formed()
            &&& t.steps@[0].table matches Some(tb) && tb.header_view() == seq![
                "Buchstabe"@,
                "Anzahl"@,
                "Anteil %"@,
            ] && tb.rows_view() == order.map_values(|c: int| cipher_row(cnt, total, c))
            &&& t.steps@[1].table matches Some(tb) && tb.header_view() == seq![
                "Buchstabe"@,
                "Anteil %"@,
            ] && tb.rows_view() == reference_of(german).map_values(
                |e: (char, int)| reference_row(e),
            )
            &&& t.steps@[2].table matches Some(tb) && tb.header_view() == seq![
                "Rang"@,
                "Chiffrat"@,
                "% (Text)"@,
                "Klartext"@,
                "% (Sprache)"@,
            ] && tb.rows_view() == Seq::new(
                order.len(),
                |k: int| mapping_row(cnt, total, german, k),
            )
        })),
{
    let (lang_label, german) = match pick_reference(language) {
        Ok(x) => x,
        Err(e) => return Err(e),
    };
    let reference = reference_table(german);
    let ghost s = text@;
    let chars = chars_of(text);

    let mut counts: Vec<u64> = Vec::new();
    let mut z: usize = 0;
    while z < 26
        invariant
            z <= 26,
            counts@.len() == z,
            forall|i: int| 0 <= i < z ==> #[trigger] counts@[i] == 0,
        decreases 26 - z,
    {
        counts.push(0);
        z += 1;
    }
    let mut total: u64 = 0;
    let mut k: usize = 0;
    while k < chars.len()
        invariant
            chars@ == s,
            s.len() <= u32::MAX,
            k <= s.len(),
            counts@.len() == 26,
            forall|i: int| 0 <= i < 26 ==> #[trigger] counts@[i] == letter_count(s.take(k as int), i),
            total == letter_total(s.take(k as int)),
            total <= k,
            forall|i: int| 0 <= i < 26 ==> #[trigger] counts@[i] <= total,
        decreases s.len() - k,
    {
        let ch = chars[k];
        proof {
            assert(s.take(k + 1).drop_last() =~= s.take(k as int));
        }
        if is_letter_exec(ch) {
            let idx = letter_index_exec(ch);
            let v = counts[idx] + 1;
            counts.set(idx, v);
            total = total + 1;
        }
        k += 1;
    }
    proof {
        assert(s.take(s.len() as int) =~= s);
    }
    let ghost cnt = counts_of(s);
    assert(forall|i: int| 0 <= i < 26 ==> #[trigger] counts@[i] == cnt[i]);
    if total == 0 {
        return Err(CalcError::UngueltigeEingabe(String::from_str("Text enthält keine Buchstaben")));
    }
    proof {
        assert(counts@.map_values(|x: u64| x as int) =~= cnt);
    }

    let mut t = Trace::new("Häufigkeitsanalyse");
    t.input("Geheimtext", text);
    t.input("Sprache", lang_label);
    let ts = uint_text(total as u128);
    t.input("Buchstaben gesamt", ts.as_str());

    // ranks: position of each letter in the order by frequency
    let mut ranks: Vec<usize> = Vec::new();
    let mut c: usize = 0;
    while c < 26
        invariant
            c <= 26,
            counts@.len() == 26,
            forall|i: int| 0 <= i < 26 ==> #[trigger] counts@[i] == cnt[i],
            ranks@.len() == c,
            forall|i: int| 0 <= i < c ==> #[trigger] ranks@[i] == rank(cnt, i),
        decreases 26 - c,
    {
        let mut rk: usize = 0;
        let mut d: usize = 0;
        while d < 26
            invariant
                d <= 26,
                c < 26,
                counts@.len() == 26,
                forall|i: int| 0 <= i < 26 ==> #[trigger] counts@[i] == cnt[i],
                rk == rank_below(cnt, c as int, d as int),
                rk <= d,
            decreases 26 - d,
        {
            if counts[d] > counts[c] || (counts[d] == counts[c] && d < c) {
                rk += 1;
            }
            d += 1;
        }
        ranks.push(rk);
        c += 1;
    }

    // the letters that occur, by rank
    let mut order: Vec<usize> = Vec::new();
    let mut rr: usize = 0;
    while rr < 26
        invariant
            rr <= 26,
            counts@.len() == 26,
            forall|i: int| 0 <= i < 26 ==> #[trigger] counts@[i] == cnt[i],
            ranks@.len() == 26,
            forall|i: int| 0 <= i < 26 ==> #[trigger] ranks@[i] == rank(cnt, i),
            order@.map_values(|x: usize| x as int) == order_below(cnt, rr as int),
            forall|i: int| 0 <= i < order@.len() ==> #[trigger] order@[i] < 26,
            order@.len() <= rr,
        decreases 26 - rr,
    {
        let mut found: usize = 26;
        let mut cc: usize = 0;
        while cc < 26
            invariant
                cc <= 26,
                rr < 26,
                ranks@.len() == 26,
                forall|i: int| 0 <= i < 26 ==> #[trigger] ranks@[i] == rank(cnt, i),
                found <= 26,
                found == 26 ==> forall|i: int| 0 <= i < cc ==> #[trigger] rank(cnt, i) != rr,
                found < 26 ==> found < cc && rank(cnt, found as int) == rr,
            decreases 26 - cc,
        {
            assert(found <= 26);
            if found == 26 && ranks[cc] == rr {
                found = cc;
            }
            cc += 1;
        }
        proof {
            if found < 26 {
                assert(has_rank(cnt, rr as int));
                let w = letter_at_rank(cnt, rr as int);
                if w != found {
                    lemma_rank_injective(cnt, w, found as int);
                }
            } else {
                assert(!has_rank(cnt, rr as int));
            }
        }
        if found < 26 && counts[found] > 0 {
            order.push(found);
        }
        proof {
            assert(order@.map_values(|x: usize| x as int) =~= order_below(cnt, rr + 1));
        }
        rr += 1;
    }
    let ghost ord = cipher_order(cnt);
    proof {
        assert(order@.map_values(|x: usize| x as int) == ord);
    }

    // table of the cipher letters
    let s1 = t.step("Buchstabenhäufigkeit im Geheimtext (absteigend)");
    let mut rows1: Vec<Vec<String>> = Vec::new();
    let mut i: usize = 0;
    while i < order.len()
        invariant
            i <= order@.len(),
            order@.map_values(|x: usize| x as int) == ord,
            forall|j: int| 0 <= j < order@.len() ==> #[trigger] order@[j] < 26,
            counts@.len() == 26,
            forall|j: int| 0 <= j < 26 ==> #[trigger] counts@[j] == cnt[j],
            forall|j: int| 0 <= j < 26 ==> #[trigger] counts@[j] <= total,
            0 < total <= u32::MAX,
            total == letter_total(s),
            rows1@.len() == i,
            forall|j: int|
                0 <= j < i ==> (#[trigger] rows1@[j])@.map_values(|x: String| x@) == cipher_row(
                    cnt,
                    total as int,
                    ord[j],
                ),
        decreases order@.len() - i,
    {
        let cl = order[i];
        assert(ord[i as int] == cl);
        let mut letter = String::new();
        push_char(&mut letter, upper_at_exec(cl as u8));
        let n = counts[cl];
        let row: Vec<String> = vec![letter, uint_text(n as u128), pct_string(pct_value(n, total))];
        proof {
            assert(row@.map_values(|x: String| x@) =~= cipher_row(cnt, total as int, cl as int));
        }
        rows1.push(row);
        i += 1;
    }
    let tb1 = Table {
        headers: vec![
            String::from_str("Buchstabe"),
            String::from_str("Anzahl"),
            String::from_str("Anteil %"),
        ],
        rows: rows1,
    };
    proof {
        assert(tb1.header_view() =~= seq!["Buchstabe"@, "Anzahl"@, "Anteil %"@]);
        assert(tb1.rows_view() =~= ord.map_values(|c: int| cipher_row(cnt, total as int, c)));
    }
    t.table(s1, tb1);

    // reference table
    let mut l2 = String::from_str("Referenzhäufigkeiten (");
    push_str(&mut l2, lang_label);
    push_str(&mut l2, ")");
    let s2 = t.step(l2.as_str());
    let mut rows2: Vec<Vec<String>> = Vec::new();
    let mut i: usize = 0;
    while i < 26
        invariant
            i <= 26,
            reference@.len() == 26,
            forall|j: int|
                0 <= j < 26 ==> (#[trigger] reference@[j]).0 == reference_of(german)[j].0
                    && reference@[j].1 as int == reference_of(german)[j].1,
            rows2@.len() == i,
            forall|j: int|
                0 <= j < i ==> (#[trigger] rows2@[j])@.map_values(|x: String| x@) == reference_row(
                    reference_of(german)[j],
                ),
        decreases 26 - i,
    {
        let (rc, rp) = reference[i];
        let mut letter = String::new();
        push_char(&mut letter, rc);
        let row: Vec<String> = vec![letter, pct_string(rp as u64)];
        proof {
            assert(row@.map_values(|x: String| x@) =~= reference_row(reference_of(german)[i as int]));
        }
        rows2.push(row);
        i += 1;
    }
    let tb2 = Table {
        headers: vec![String::from_str("Buchstabe"), String::from_str("Anteil %")],
        rows: rows2,
    };
    proof {
        assert(tb2.header_view() =~= seq!["Buchstabe"@, "Anteil %"@]);
        assert(tb2.rows_view() =~= reference_of(german).map_values(|e: (char, int)| reference_row(e)));
    }
    t.table(s2, tb2);

    // proposal: k-th cipher letter to k-th reference letter
    let s3 = t.step("Vorschlag: häufigster Chiffre- → häufigster Referenzbuchstabe");
    let mut mapping: Vec<Option<char>> = Vec::new();
    let mut z: usize = 0;
    while z < 26
        invariant
            z <= 26,
            mapping@.len() == z,
            forall|j: int| 0 <= j < z ==> #[trigger] mapping@[j] is None,
        decreases 26 - z,
    {
        mapping.push(None);
        z += 1;
    }
    proof {
        // the letters in the order are distinct
        assert forall|a: int, b: int| 0 <= a < b < ord.len() implies ord[a] != ord[b] by {
            lemma_order_distinct(cnt, 26, a, b);
        }
        lemma_order_len(cnt, 26);
    }
    let mut rows3: Vec<Vec<String>> = Vec::new();
    let mut i: usize = 0;
    while i < order.len()
        invariant
            i <= order@.len(),
            order@.len() <= 26,
            ord == cipher_order(cnt),
            order@.map_values(|x: usize| x as int) == ord,
            forall|a: int, b: int| 0 <= a < b < ord.len() ==> ord[a] != ord[b],
            forall|j: int| 0 <= j < order@.len() ==> #[trigger] order@[j] < 26,
            counts@.len() == 26,
            forall|j: int| 0 <= j < 26 ==> #[trigger] counts@[j] == cnt[j],
            forall|j: int| 0 <= j < 26 ==> #[trigger] counts@[j] <= total,
            0 < total <= u32::MAX,
            reference@.len() == 26,
            forall|j: int|
                0 <= j < 26 ==> (#[trigger] reference@[j]).0 == reference_of(german)[j].0
                    && reference@[j].1 as int == reference_of(german)[j].1,
            mapping@.len() == 26,
            forall|idx: int|
                0 <= idx < 26 ==> #[trigger] mapping@[idx] == (if exists|k: int|
                    0 <= k < i && ord[k] == idx {
                    Some(reference_of(german)[choose|k: int| 0 <= k < i && ord[k] == idx].0)
                } else {
                    None
                }),
            rows3@.len() == i,
            forall|j: int|
                0 <= j < i ==> (#[trigger] rows3@[j])@.map_values(|x: String| x@) == mapping_row(
                    cnt,
                    total as int,
                    german,
                    j,
                ),
        decreases order@.len() - i,
    {
        let cl = order[i];
        assert(ord[i as int] == cl);
        let (rc, rp) = reference[i];
        proof {
            assert forall|idx: int| 0 <= idx < 26 implies #[trigger] mapping@.update(
                cl as int,
                Some(rc),
            )[idx] == (if exists|k: int| 0 <= k < i + 1 && ord[k] == idx {
                Some(reference_of(german)[choose|k: int| 0 <= k < i + 1 && ord[k] == idx].0)
            } else {
                None
            }) by {
                if idx == cl {
                    let k = choose|k: int| 0 <= k < i + 1 && ord[k] == idx;
                    assert(ord[i as int] == idx);
                    if k != i {
                        assert(ord[k] != ord[i as int]);
                    }
                } else {
                    if exists|k: int| 0 <= k < i + 1 && ord[k] == idx {
                        let k = choose|k: int| 0 <= k < i + 1 && ord[k] == idx;
                        assert(k != i);
                        let k2 = choose|k: int| 0 <= k < i && ord[k] == idx;
                        assert(0 <= k < i && ord[k] == idx);
                        if k2 != k {
                            if k2 < k {
                                assert(ord[k2] != ord[k]);
                            } else {
                                assert(ord[k] != ord[k2]);
                            }
                        }
                    }
                }
            }
        }
        mapping.set(cl, Some(rc));
        let mut cletter = String::new();
        push_char(&mut cletter, upper_at_exec(cl as u8));
        let mut rletter = String::new();
        push_char(&mut rletter, rc);
        let n = counts[cl];
        let row: Vec<String> = vec![
            uint_text((i + 1) as u128),
            cletter,
            pct_string(pct_value(n, total)),
            rletter,
            pct_string(rp as u64),
        ];
        proof {
            assert(row@.map_values(|x: String| x@) =~= mapping_row(cnt, total as int, german, i as int));
        }
        rows3.push(row);
        i += 1;
    }
    let tb3 = Table {
        headers: vec![
            String::from_str("Rang"),
            String::from_str("Chiffrat"),
            String::from_str("% (Text)"),
            String::from_str("Klartext"),
            String::from_str("% (Sprache)"),
        ],
        rows: rows3,
    };
    proof {
        assert(tb3.header_view() =~= seq![
            "Rang"@,
            "Chiffrat"@,
            "% (Text)"@,
            "Klartext"@,
            "% (Sprache)"@,
        ]);
        assert(tb3.rows_view() =~= Seq::new(
            ord.len(),
            |k: int| mapping_row(cnt, total as int, german, k),
        ));
        assert forall|idx: int| 0 <= idx < 26 implies #[trigger] mapping@[idx] == proposal(
            cnt,
            german,
            idx,
        ) by {
        }
    }
    t.table(s3, tb3);

    // rough translation
    let s4 = t.step("Roh-Übersetzung mit Vorschlag (unbekannte Buchstaben als '_')");
    let mut out = String::new();
    let mut k: usize = 0;
    while k < chars.len()
        invariant
            chars@ == s,
            k <= s.len(),
            mapping@.len() == 26,
            forall|idx: int| 0 <= idx < 26 ==> #[trigger] mapping@[idx] == proposal(cnt, german, idx),
            cnt == counts_of(s),
            out@ == preview(s, german).take(k as int),
        decreases s.len() - k,
    {
        let ch = chars[k];
        let mapped = if is_letter_exec(ch) {
            let idx = letter_index_exec(ch);
            match mapping[idx] {
                Some(p) => if is_lower_exec(ch) {
                    to_lower_exec(p)
                } else {
                    p
                },
                None => '_',
            }
        } else {
            ch
        };
        push_char(&mut out, mapped);
        proof {
            assert(preview(s, german).take(k + 1) =~= preview(s, german).take(k as int).push(mapped));
        }
        k += 1;
    }
    proof {
        assert(preview(s, german).take(s.len() as int) =~= preview(s, german));
    }
    t.line(s4, out.as_str());
    t.result("Vorschlag (Roh-Übersetzung)", out.as_str());
    assert(t.step_lines(3) =~= seq![out@]);
    assert(t.step_titles() =~= seq![
        "Buchstabenhäufigkeit im Geheimtext (absteigend)"@,
        "Referenzhäufigkeiten ("@ + (if german { "Deutsch"@ } else { "Englisch"@ }) + ")"@,
        "Vorschlag: häufigster Chiffre- → häufigster Referenzbuchstabe"@,
        "Roh-Übersetzung mit Vorschlag (unbekannte Buchstaben als '_')"@,
    ]);
    Ok(t)
}

/// The letters in the order have distinct ranks, hence are distinct.
proof fn lemma_order_distinct(cnt: Seq<int>, m: int, a: int, b: int)
    requires
        0 <= m <= 26,
        0 <= a < b < order_below(cnt, m).len(),
    ensures
        order_below(cnt, m)[a] != order_below(cnt, m)[b],
        rank(cnt, order_below(cnt, m)[a]) < rank(cnt, order_below(cnt, m)[b]),
    decreases m,
{
    lemma_order_ranks(cnt, m);
    let x = order_below(cnt, m)[a];
    let y = order_below(cnt, m)[b];
    lemma_order_monotone(cnt, m, a, b);
}

/// Every letter of the order has a rank below `m`, and is that rank's letter.
proof fn lemma_order_ranks(cnt: Seq<int>, m: int)
    requires
        0 <= m <= 26,
    ensures
        forall|k: int|
            0 <= k < order_below(cnt, m).len() ==> 0 <= rank(cnt, #[trigger] order_below(cnt, m)[k])
                < m && 0 <= order_below(cnt, m)[k] < 26,
    decreases m,
{
    if m > 0 {
        lemma_order_ranks(cnt, m - 1);
        let p = order_below(cnt, m - 1);
        if has_rank(cnt, m - 1) && cnt[letter_at_rank(cnt, m - 1)] > 0 {
            let w = letter_at_rank(cnt, m - 1);
            assert(0 <= w < 26 && rank(cnt, w) == m - 1);
            assert forall|k: int| 0 <= k < order_below(cnt, m).len() implies 0 <= rank(
                cnt,
                #[trigger] order_below(cnt, m)[k],
            ) < m && 0 <= order_below(cnt, m)[k] < 26 by {
                if k < p.len() {
                    assert(order_below(cnt, m)[k] == p[k]);
                }
            }
        } else {
            assert(order_below(cnt, m) == p);
        }
    }
}

/// Ranks increase along the order.
proof fn lemma_order_monotone(cnt: Seq<int>, m: int, a: int, b: int)
    requires
        0 <= m <= 26,
        0 <= a < b < order_below(cnt, m).len(),
    ensures
        rank(cnt, order_below(cnt, m)[a]) < rank(cnt, order_below(cnt, m)[b]),
    decreases m,
{
    if m > 0 {
        let p = order_below(cnt, m - 1);
        if has_rank(cnt, m - 1) && cnt[letter_at_rank(cnt, m - 1)] > 0 {
            lemma_order_ranks(cnt, m - 1);
            if b < p.len() {
                lemma_order_monotone(cnt, m - 1, a, b);
            } else {
                assert(order_below(cnt, m)[a] == p[a]);
                assert(rank(cnt, p[a]) < m - 1);
            }
        } else {
            lemma_order_monotone(cnt, m - 1, a, b);
        }
    }
}

/// The order holds at most `m` letters.
proof fn lemma_order_len(cnt: Seq<int>, m: int)
    requires
        0 <= m <= 26,
    ensures
        order_below(cnt, m).len() <= m,
    decreases m,
{
    if m > 0 {
        lemma_order_len(cnt, m - 1);
    }
}

} // verus!
