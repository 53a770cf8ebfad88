//! Columnar transposition: for every nontrivial divisor of the text length,
//! the matrix filled column by column and the candidate read row by row.
use vstd::prelude::*;
use vstd::arithmetic::div_mod::*;
use vstd::arithmetic::mul::*;
use crate::error::{CalcError, CalcResult};
use crate::math::lemma_mod_unique;
use crate::text::{dec, join_dec, push_char, push_int, push_str, text_int, uint_text};
use crate::trace::{Table, Trace};
use crate::validation::chars_of;

verus! {

/// The divisors of `len` in `[2, m)`, ascending.
pub open spec fn divisors_below(len: int, m: int) -> Seq<int>
    decreases m,
{
    if m <= 2 {
        Seq::empty()
    } else if len % (m - 1) == 0 {
        divisors_below(len, m - 1).push(m - 1)
    } else {
        divisors_below(len, m - 1)
    }
}

/// The candidate for `col` columns: the text written into the columns of a
/// `len / col`-row matrix one after the other, read back row by row.
pub open spec fn candidate(s: Seq<char>, col: int) -> Seq<char> {
    let row = (s.len() as int) / col;
    Seq::new(s.len(), |k: int| s[(k % col) * row + k / col])
}

/// The text of a row-major matrix with `col` columns read column by column:
/// what a columnar transposition with `col` columns produces.
pub open spec fn read_columns(p: Seq<char>, col: int) -> Seq<char> {
    let row = (p.len() as int) / col;
    Seq::new(p.len(), |j: int| p[(j % row) * col + j / row])
}

/// The matrix for `col` columns: row `r` holds `s[c·row + r]` in column `c`.
pub open spec fn variant_rows(s: Seq<char>, col: int) -> Seq<Seq<Seq<char>>> {
    let row = (s.len() as int) / col;
    Seq::new(row as nat, |r: int| Seq::new(col as nat, |c: int| seq![s[c * row + r]]))
}

/// The column headers `S1, ..., S{col}`.
pub open spec fn variant_headers(col: int) -> Seq<Seq<char>> {
    Seq::new(col as nat, |c: int| "S"@ + dec(c + 1))
}

/// The result entry of a variant.
pub open spec fn variant_result(s: Seq<char>, col: int) -> (Seq<char>, Seq<char>) {
    ("Kandidat ("@ + dec(col) + " Spalten)"@, candidate(s, col))
}

/// Step `j + 1` of the trace shows the variant for `col` columns: its title,
/// its matrix and its candidate.
pub open spec fn variant_step(t: Trace, s: Seq<char>, col: int, j: int) -> bool {
    &&& t.steps@[j + 1].title@ == "Variante: "@ + dec(col) + " Spalten, "@ + dec(
        (s.len() as int) / col,
    ) + " Zeilen"@
    &&& t.step_lines(j + 1) == seq!["Kandidat: "@ + candidate(s, col)]
    &&& t.steps@[j + 1].table matches Some(tb) && tb.header_view() == variant_headers(col)
        && tb.rows_view() == variant_rows(s, col)
}

/// `j = a·row + b` with `0 <= b < row` splits into quotient `a` and remainder `b`.
proof fn lemma_split(j: int, row: int, a: int, b: int)
    requires
        row > 0,
        0 <= b < row,
        j == a * row + b,
    ensures
        j / row == a,
        j % row == b,
{
    lemma_mod_unique(j, row, a, b);
}

/// Reading the candidate of a column transposition gives the text back:
/// the candidate for `col` columns undoes writing a text with `col` columns
/// into a matrix row by row and reading it column by column.
pub proof fn lemma_transposition_roundtrip(p: Seq<char>, col: int)
    requires
        col >= 1,
        (p.len() as int) % col == 0,
    ensures
        candidate(read_columns(p, col), col) == p,
{
    let len = p.len() as int;
    let row = len / col;
    lemma_fundamental_div_mod(len, col);
    let c = read_columns(p, col);
    assert forall|k: int| 0 <= k < len implies #[trigger] candidate(c, col)[k] == p[k] by {
        lemma_fundamental_div_mod(k, col);
        lemma_mod_bound(k, col);
        lemma_div_pos_is_pos(k, col);
        let a = k % col;
        let b = k / col;
        assert(b < row) by (nonlinear_arith)
            requires k == col * b + a, 0 <= a, k < len, len == col * row, col >= 1;
        assert(row > 0) by (nonlinear_arith)
            requires len == col * row, col >= 1, k < len, 0 <= k;
        let j = a * row + b;
        assert(0 <= j < len) by (nonlinear_arith)
            requires 0 <= a < col, 0 <= b < row, len == col * row, j == a * row + b;
        lemma_split(j, row, a, b);
        assert(b * col + a == k) by (nonlinear_arith)
            requires k == col * b + a;
    }
    assert(candidate(c, col) =~= p);
}

/// All variants of a columnar transposition: one per divisor `2 <= col < len`
/// of the length, each with its matrix and its candidate.
pub fn decrypt(text: &str) -> (r: CalcResult<Trace>)
    ensures
        text@.len() < 2 ==> (r matches Err(CalcError::Bereich(s)) && s@
            == "Geheimtext muss mindestens 2 Zeichen enthalten"@),
        text@.len() >= 2 ==> (r matches Ok(t) && t.algorithm@
            == "Spaltentransposition: Varianten aller Spaltenzahlen"@ && t.input_list() == seq![
            ("Geheimtext"@, text@),
            ("Länge"@, dec(text@.len() as int)),
        ] && t.well_formed() && t.steps@[0].title@ == "Teiler der Textlänge bestimmen"@
            && t.steps@[0].table is None && ({
            let ds = divisors_below(text@.len() as int, text@.len() as int);
            &&& ds.len() == 0 ==> t.results() == seq![
                ("Hinweis"@, "Länge ist prim, keine Variante darstellbar"@),
            ] && t.step_lines(0) == seq![
                "Die Zeichenlänge "@ + dec(text@.len() as int)
                    + " ist eine Primzahl – keine Spaltentransformation möglich."@,
            ] && t.steps@.len() == 1
            &&& ds.len() > 0 ==> t.results() == ds.map_values(|col: int| variant_result(text@, col))
                && t.step_lines(0) == seq![
                "Nicht-triviale Teiler (ohne 1 und "@ + dec(text@.len() as int) + "): "@
                    + join_dec(ds),
            ] && t.steps@.len() == ds.len() + 1 && forall|k: int|
                0 <= k < ds.len() ==> #[trigger] variant_step(t, text@, ds[k], k)
        })),
{
    let chars = chars_of(text);
    let len = chars.len();
    if len < 2 {
        return Err(
            CalcError::Bereich(String::from_str("Geheimtext muss mindestens 2 Zeichen enthalten")),
        );
    }
    let ghost s = text@;
    let mut t = Trace::new("Spaltentransposition: Varianten aller Spaltenzahlen");
    t.input("Geheimtext", text);
    let ls = uint_text(len as u128);
    t.input("Länge", ls.as_str());

    let mut divisors: Vec<usize> = Vec::new();
    let mut n: usize = 2;
    while n < len
        invariant
            2 <= n <= len,
            len == s.len(),
            divisors@.map_values(|d: usize| d as int) == divisors_below(len as int, n as int),
            forall|k: int| 0 <= k < divisors@.len() ==> 2 <= #[trigger] divisors@[k] < n,
            forall|k: int| 0 <= k < divisors@.len() ==> (len as int) % (#[trigger] divisors@[k] as int) == 0,
            divisors@.len() <= n - 2,
        decreases len - n,
    {
        if len % n == 0 {
            divisors.push(n);
        }
        proof {
            assert(divisors@.map_values(|d: usize| d as int) =~= divisors_below(len as int, n + 1));
        }
        n += 1;
    }
    let ghost ds = divisors_below(len as int, len as int);
    assert forall|j: int| 0 <= j < ds.len() implies (len as int) % #[trigger] ds[j] == 0 by {
        assert(ds[j] == divisors@[j]);
    }

    let s0 = t.step("Teiler der Textlänge bestimmen");
    if divisors.len() == 0 {
        let mut l = text_int("Die Zeichenlänge ", len as i128);
        push_str(&mut l, " ist eine Primzahl – keine Spaltentransformation möglich.");
        t.line(s0, l.as_str());
        t.result("Hinweis", "Länge ist prim, keine Variante darstellbar");
        assert(t.step_lines(0) =~= seq![l@]);
        return Ok(t);
    }
    let mut joined = String::new();
    let mut i: usize = 0;
    while i < divisors.len()
        invariant
            i <= divisors@.len(),
            divisors@.map_values(|d: usize| d as int) == ds,
            joined@ == join_dec(ds.take(i as int)),
        decreases divisors@.len() - i,
    {
        let d = divisors[i];
        proof {
            assert(ds[i as int] == d);
            assert(ds.take(i + 1).drop_last() =~= ds.take(i as int));
        }
        if i > 0 {
            push_str(&mut joined, ", ");
        } else {
            assert(ds.take(1) =~= seq![ds[0]]);
        }
        push_int(&mut joined, d as i128);
        i += 1;
    }
    assert(ds.take(i as int) =~= ds);
    let mut l0 = text_int("Nicht-triviale Teiler (ohne 1 und ", len as i128);
    push_str(&mut l0, "): ");
    push_str(&mut l0, joined.as_str());
    t.line(s0, l0.as_str());
    assert(t.step_lines(0) =~= seq![l0@]);

    let mut k: usize = 0;
    while k < divisors.len()
        invariant
            k <= divisors@.len(),
            len == s.len(),
            len >= 2,
            chars@ == s,
            divisors@.map_values(|d: usize| d as int) == ds,
            forall|j: int| 0 <= j < divisors@.len() ==> 2 <= #[trigger] divisors@[j] < len,
            forall|j: int| 0 <= j < ds.len() ==> (len as int) % #[trigger] ds[j] == 0,
            divisors@.len() < len,
            t.steps@.len() == k + 1,
            t.steps@[0].title@ == "Teiler der Textlänge bestimmen"@,
            t.steps@[0].table is None,
            t.step_lines(0) == seq![l0@],
            t.results() == ds.take(k as int).map_values(|col: int| variant_result(s, col)),
            forall|j: int| 0 <= j < k ==> #[trigger] variant_step(t, s, ds[j], j),
            t.input_list() == seq![("Geheimtext"@, s), ("Länge"@, dec(len as int))],
            t.algorithm@ == "Spaltentransposition: Varianten aller Spaltenzahlen"@,
            t.well_formed(),
        decreases divisors@.len() - k,
    {
        let ghost steps_before = t.steps@;
        let ghost t_before = t;
        let col = divisors[k];
        assert(ds[k as int] == col);
        let row = len / col;
        assert((s.len() as int) / (col as int) == row as int);
        proof {
            lemma_fundamental_div_mod(len as int, col as int);
            assert(col * row == len);
            assert(row >= 1) by (nonlinear_arith)
                requires col * row == len, len >= 2, col >= 2;
        }
        let mut title = text_int("Variante: ", col as i128);
        push_str(&mut title, " Spalten, ");
        push_int(&mut title, row as i128);
        push_str(&mut title, " Zeilen");
        let st = t.step(title.as_str());

        let mut headers: Vec<String> = Vec::new();
        let mut c: usize = 0;
        while c < col
            invariant
                c <= col,
                headers@.len() == c,
                forall|i: int| 0 <= i < c ==> (#[trigger] headers@[i])@ == "S"@ + dec(i + 1),
            decreases col - c,
        {
            let h = text_int("S", (c + 1) as i128);
            headers.push(h);
            c += 1;
        }
        assert(headers@.map_values(|h: String| h@) =~= variant_headers(col as int));
        let mut rows: Vec<Vec<String>> = Vec::new();
        let mut cand = String::new();
        let mut r: usize = 0;
        while r < row
            invariant
                r <= row,
                col * row == len,
                2 <= col,
                len == s.len(),
                chars@ == s,
                (s.len() as int) / (col as int) == row as int,
                rows@.len() == r,
                forall|j: int|
                    0 <= j < r ==> (#[trigger] rows@[j])@.map_values(|x: String| x@) == variant_rows(
                        s,
                        col as int,
                    )[j],
                cand@ == candidate(s, col as int).take(r * col),
            decreases row - r,
        {
            let mut cells: Vec<String> = Vec::new();
            let mut c: usize = 0;
            while c < col
                invariant
                    c <= col,
                    r < row,
                    col * row == len,
                    2 <= col,
                    len == s.len(),
                    chars@ == s,
                    (s.len() as int) / (col as int) == row as int,
                cells@.len() == c,
                forall|i: int| 0 <= i < c ==> (#[trigger] cells@[i])@ == seq![s[i * row + r]],
                    cand@ == candidate(s, col as int).take(r * col + c),
                decreases col - c,
            {
                assert(c * row + r < len) by (nonlinear_arith)
                    requires c < col, r < row, col * row == len;
                let ch = chars[c * row + r];
                let mut cell = String::new();
                push_char(&mut cell, ch);
                assert(cell@ =~= seq![ch]);
                cells.push(cell);
                push_char(&mut cand, ch);
                proof {
                    let kk = r * col + c;
                    assert(0 <= kk < len) by (nonlinear_arith)
                        requires c < col, r < row, col * row == len, kk == r * col + c;
                    lemma_split(kk, col as int, r as int, c as int);
                    assert(candidate(s, col as int)[kk] == ch);
                    assert(candidate(s, col as int).take(kk + 1) =~= candidate(s, col as int).take(
                        kk,
                    ).push(ch));
                }
                c += 1;
            }
            proof {
                assert(cells@.map_values(|x: String| x@) =~= variant_rows(s, col as int)[r as int]);
                assert(r * col + col == (r + 1) * col) by (nonlinear_arith);
            }
            rows.push(cells);
            r += 1;
        }
        proof {
            assert(row * col == len) by (nonlinear_arith)
                requires col * row == len;
            assert(cand@ =~= candidate(s, col as int));
        }
        let tb = Table { headers, rows };
        proof {
            assert(tb.header_view() =~= variant_headers(col as int));
            assert(tb.rows_view() =~= variant_rows(s, col as int));
        }
        t.table(st, tb);
        let mut l = String::from_str("Kandidat: ");
        push_str(&mut l, cand.as_str());
        t.line(st, l.as_str());
        let mut name = text_int("Kandidat (", col as i128);
        push_str(&mut name, " Spalten)");
        t.result(name.as_str(), cand.as_str());
        proof {
            assert(t.step_lines(k + 1) =~= seq!["Kandidat: "@ + candidate(s, col as int)]);
            assert(t.results() =~= ds.take(k + 1).map_values(|col: int| variant_result(s, col)));
            assert(variant_step(t, s, ds[k as int], k as int));
            assert forall|j: int| 0 <= j < k + 1 implies #[trigger] variant_step(t, s, ds[j], j) by {
                if j < k {
                    assert(t.steps@[j + 1] == steps_before[j + 1]);
                    assert(variant_step(t_before, s, ds[j], j));
                }
            }
        }
        k += 1;
    }
    proof {
        assert(ds.take(k as int) =~= ds);
    }
    Ok(t)
}

} // verus!
