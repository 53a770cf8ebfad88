//! Plain-text layout of a trace: the lines that a terminal shows, with tables
//! aligned in columns.
use vstd::prelude::*;
use crate::error::{CalcError, message_view};
use crate::text::{dec, push_char, push_str, uint_text};
use crate::trace::{Step, Table, Trace};
use crate::validation::chars_of;

verus! {

broadcast use vstd::seq_lib::group_seq_properties;

/// `n` copies of the character `c`.
pub open spec fn repeated(c: char, n: nat) -> Seq<char> {
    Seq::new(n, |i: int| c)
}

/// `s` filled up with spaces on the right to `w` characters (what `{:w$}` gives).
pub open spec fn padded(s: Seq<char>, w: int) -> Seq<char> {
    if s.len() < w {
        s + repeated(' ', (w - s.len()) as nat)
    } else {
        s
    }
}

/// The parts, separated by `sep`.
pub open spec fn joined(parts: Seq<Seq<char>>, sep: Seq<char>) -> Seq<char>
    decreases parts.len(),
{
    if parts.len() == 0 {
        Seq::empty()
    } else if parts.len() == 1 {
        parts[0]
    } else {
        joined(parts.drop_last(), sep) + sep + parts.last()
    }
}

/// Width of column `i` after the first `k` rows: the header's length `h`,
/// widened by each cell of the column that is longer.
pub open spec fn width_after(h: int, rows: Seq<Seq<Seq<char>>>, i: int, k: int) -> int
    decreases k,
{
    if k <= 0 {
        h
    } else {
        let w = width_after(h, rows, i, k - 1);
        if i < rows[k - 1].len() && rows[k - 1][i].len() > w {
            rows[k - 1][i].len() as int
        } else {
            w
        }
    }
}

/// The width of every column of the table.
pub open spec fn widths_of(t: Table) -> Seq<int> {
    t.header_view().map(
        |i: int, h: Seq<char>| width_after(h.len() as int, t.rows_view(), i, t.rows_view().len() as int),
    )
}

/// Width for cell `i` of a row: the column's width, or 0 beyond the headers.
pub open spec fn width_at(w: Seq<int>, i: int) -> int {
    if i < w.len() {
        w[i]
    } else {
        0
    }
}

/// One row of cells, each padded to its column, separated by " | ".
pub open spec fn row_line(cells: Seq<Seq<char>>, w: Seq<int>, indent: Seq<char>) -> Seq<char> {
    indent + joined(cells.map(|i: int, c: Seq<char>| padded(c, width_at(w, i))), " | "@)
}

/// The lines of a table: header row, separator row, then one line per row.
pub open spec fn table_lines(t: Table, indent: Seq<char>) -> Seq<Seq<char>> {
    let w = widths_of(t);
    seq![
        row_line(t.header_view(), w, indent),
        indent + joined(w.map_values(|n: int| repeated('-', n as nat)), "-+-"@),
    ] + t.rows_view().map_values(|r: Seq<Seq<char>>| row_line(r, w, indent))
}

/// The lines of one step: a blank line, "[n] title", the text lines indented,
/// and the table after a blank line when there is one.
pub open spec fn step_lines(s: Step) -> Seq<Seq<char>> {
    seq![Seq::empty(), "["@ + dec(s.number as int) + "] "@ + s.title@] + s.lines@.map_values(
        |l: String| "    "@ + l@,
    ) + match s.table {
        Some(t) => seq![Seq::<char>::empty()] + table_lines(t, "    "@),
        None => Seq::empty(),
    }
}

/// "  name = value" for each entry.
pub open spec fn entry_lines(v: Seq<(Seq<char>, Seq<char>)>) -> Seq<Seq<char>> {
    v.map_values(|p: (Seq<char>, Seq<char>)| "  "@ + p.0 + " = "@ + p.1)
}

/// A titled block: a blank line, the title, the lines; nothing when there are no lines.
pub open spec fn block(title: Seq<char>, lines: Seq<Seq<char>>) -> Seq<Seq<char>> {
    if lines.len() == 0 {
        Seq::empty()
    } else {
        seq![Seq::empty(), title] + lines
    }
}

/// The full layout of a trace: algorithm, inputs, all steps, results.
pub open spec fn trace_lines(t: Trace) -> Seq<Seq<char>> {
    seq![Seq::empty(), "Algorithmus: "@ + t.algorithm@] + block(
        "Eingaben:"@,
        entry_lines(t.input_list()),
    ) + (if t.steps@.len() == 0 {
        Seq::empty()
    } else {
        seq![Seq::empty(), "Schritte:"@] + t.steps@.map_values(|s: Step| step_lines(s)).flatten()
    }) + block("Ergebnis:"@, entry_lines(t.results())) + seq![Seq::empty()]
}

/// The short layout of a trace: algorithm and results.
pub open spec fn summary_lines(t: Trace) -> Seq<Seq<char>> {
    seq![Seq::empty(), "Algorithmus: "@ + t.algorithm@] + block(
        "Ergebnis:"@,
        entry_lines(t.results()),
    ) + seq![Seq::empty()]
}

/// The texts of a list of lines.
pub open spec fn texts(v: Seq<String>) -> Seq<Seq<char>> {
    v.map_values(|s: String| s@)
}

/// Appends one line.
fn emit(out: &mut Vec<String>, s: String)
    ensures
        texts(final(out)@) == texts(old(out)@).push(s@),
{
    out.push(s);
    assert(texts(out@) =~= texts(old(out)@).push(s@));
}

/// Appends an empty line.
fn emit_blank(out: &mut Vec<String>)
    ensures
        texts(final(out)@) == texts(old(out)@).push(Seq::<char>::empty()),
{
    emit(out, String::new());
}

/// Appends one line given as a slice.
fn emit_str(out: &mut Vec<String>, s: &str)
    ensures
        texts(final(out)@) == texts(old(out)@).push(s@),
{
    emit(out, String::from_str(s));
}

/// Number of characters of a text.
fn char_count(s: &str) -> (n: usize)
    ensures
        n == s@.len(),
{
    chars_of(s).len()
}

/// The width of each column: a header's length, widened by the longest cell below it.
pub fn column_widths(table: &Table) -> (w: Vec<usize>)
    ensures
        w@.len() == table.headers@.len(),
        forall|i: int| 0 <= i < w@.len() ==> w@[i] as int == #[trigger] widths_of(*table)[i],
{
    let ghost rows = table.rows_view();
    let ghost hs = table.header_view();
    let mut widths: Vec<usize> = Vec::new();
    let mut h: usize = 0;
    while h < table.headers.len()
        invariant
            h <= table.headers@.len(),
            hs == table.header_view(),
            widths@.len() == h,
            forall|i: int| 0 <= i < h ==> widths@[i] as int == hs[i].len(),
        decreases table.headers@.len() - h,
    {
        let n = char_count(table.headers[h].as_str());
        widths.push(n);
        h += 1;
    }
    let mut r: usize = 0;
    while r < table.rows.len()
        invariant
            r <= table.rows@.len(),
            rows == table.rows_view(),
            hs == table.header_view(),
            widths@.len() == hs.len(),
            forall|i: int|
                0 <= i < widths@.len() ==> widths@[i] as int == width_after(
                    hs[i].len() as int,
                    rows,
                    i,
                    r as int,
                ),
        decreases table.rows@.len() - r,
    {
        let row = &table.rows[r];
        assert(rows[r as int] == row@.map_values(|c: String| c@));
        let mut j: usize = 0;
        while j < row.len()
            invariant
                r < table.rows@.len(),
                row == table.rows@[r as int],
                rows == table.rows_view(),
                rows[r as int] == row@.map_values(|c: String| c@),
                j <= row@.len(),
                widths@.len() == hs.len(),
                forall|i: int|
                    0 <= i < widths@.len() ==> widths@[i] as int == (if i < j {
                        width_after(hs[i].len() as int, rows, i, r + 1)
                    } else {
                        width_after(hs[i].len() as int, rows, i, r as int)
                    }),
            decreases row@.len() - j,
        {
            if j < widths.len() {
                let len = char_count(row[j].as_str());
                if len > widths[j] {
                    widths.set(j, len);
                }
            }
            j += 1;
        }
        proof {
            assert forall|i: int| 0 <= i < widths@.len() implies widths@[i] as int == width_after(
                hs[i].len() as int,
                rows,
                i,
                r + 1,
            ) by {
                if i >= row@.len() {
                    assert(!(i < rows[r as int].len()));
                }
            }
        }
        r += 1;
    }
    widths
}

/// The text `s` padded with spaces on the right to `w` characters.
fn pad(s: &str, w: usize) -> (r: String)
    ensures
        r@ == padded(s@, w as int),
{
    let mut r = String::from_str(s);
    let n = char_count(s);
    let mut k: usize = n;
    while k < w
        invariant
            n == s@.len(),
            n <= k <= w || (w < n && k == n),
            r@ == s@ + repeated(' ', (k - n) as nat),
        decreases w - k,
    {
        push_char(&mut r, ' ');
        assert(repeated(' ', (k + 1 - n) as nat) =~= repeated(' ', (k - n) as nat).push(' '));
        k += 1;
    }
    assert(n >= w ==> repeated(' ', (k - n) as nat) =~= Seq::<char>::empty());
    r
}

/// `n` copies of the character `c`.
fn repeat(c: char, n: usize) -> (r: String)
    ensures
        r@ == repeated(c, n as nat),
{
    let mut r = String::new();
    let mut k: usize = 0;
    while k < n
        invariant
            k <= n,
            r@ == repeated(c, k as nat),
        decreases n - k,
    {
        push_char(&mut r, c);
        assert(repeated(c, (k + 1) as nat) =~= repeated(c, k as nat).push(c));
        k += 1;
    }
    r
}

/// The parts, separated by `sep`.
fn join(parts: &Vec<String>, sep: &str) -> (r: String)
    ensures
        r@ == joined(texts(parts@), sep@),
{
    let mut r = String::new();
    let mut k: usize = 0;
    while k < parts.len()
        invariant
            k <= parts@.len(),
            r@ == joined(texts(parts@).take(k as int), sep@),
        decreases parts@.len() - k,
    {
        let ghost before = texts(parts@).take(k as int);
        assert(texts(parts@).take(k + 1).drop_last() =~= before);
        if k > 0 {
            push_str(&mut r, sep);
        }
        push_str(&mut r, parts[k].as_str());
        proof {
            let now = texts(parts@).take(k + 1);
            if k == 0 {
                assert(before =~= Seq::<Seq<char>>::empty());
            }
            assert(now.last() == parts@[k as int]@);
        }
        k += 1;
    }
    assert(texts(parts@).take(k as int) =~= texts(parts@));
    r
}

/// One row of cells padded to the column widths, joined by " | ".
fn row_text(cells: &Vec<String>, w: &Vec<usize>, indent: &str, ghost_w: Ghost<Seq<int>>) -> (r: String)
    requires
        ghost_w@.len() == w@.len(),
        forall|i: int| 0 <= i < w@.len() ==> w@[i] as int == ghost_w@[i],
    ensures
        r@ == row_line(texts(cells@), ghost_w@, indent@),
{
    let mut parts: Vec<String> = Vec::new();
    let mut i: usize = 0;
    while i < cells.len()
        invariant
            i <= cells@.len(),
            ghost_w@.len() == w@.len(),
            forall|j: int| 0 <= j < w@.len() ==> w@[j] as int == ghost_w@[j],
            texts(parts@).len() == i,
            forall|j: int| 0 <= j < i ==> #[trigger] texts(parts@)[j] == padded(cells@[j]@, width_at(ghost_w@, j)),
        decreases cells@.len() - i,
    {
        let wi: usize = if i < w.len() { w[i] } else { 0 };
        let p = pad(cells[i].as_str(), wi);
        assert(wi as int == width_at(ghost_w@, i as int));
        let ghost before = texts(parts@);
        parts.push(p);
        assert(texts(parts@) =~= before.push(p@));
        i += 1;
    }
    assert(texts(parts@) =~= texts(cells@).map(|j: int, c: Seq<char>| padded(c, width_at(ghost_w@, j))));
    let mut r = String::from_str(indent);
    let body = join(&parts, " | ");
    push_str(&mut r, body.as_str());
    r
}

/// Appends the lines of a table.
fn emit_table(out: &mut Vec<String>, table: &Table, indent: &str)
    ensures
        texts(final(out)@) == texts(old(out)@) + table_lines(*table, indent@),
{
    let widths = column_widths(table);
    let ghost gw = widths_of(*table);
    assert(gw.len() == widths@.len());
    let header = row_text(&table.headers, &widths, indent, Ghost(gw));
    assert(texts(table.headers@) =~= table.header_view());
    emit(out, header);
    let mut dashes: Vec<String> = Vec::new();
    let mut i: usize = 0;
    while i < widths.len()
        invariant
            i <= widths@.len(),
            gw.len() == widths@.len(),
            forall|j: int| 0 <= j < widths@.len() ==> widths@[j] as int == gw[j],
            texts(dashes@).len() == i,
            forall|j: int| 0 <= j < i ==> #[trigger] texts(dashes@)[j] == repeated('-', gw[j] as nat),
        decreases widths@.len() - i,
    {
        let d = repeat('-', widths[i]);
        assert(widths@[i as int] as int == gw[i as int]);
        let ghost before = texts(dashes@);
        dashes.push(d);
        assert(texts(dashes@) =~= before.push(d@));
        i += 1;
    }
    assert(texts(dashes@) =~= gw.map_values(|n: int| repeated('-', n as nat)));
    let mut sep = String::from_str(indent);
    let body = join(&dashes, "-+-");
    push_str(&mut sep, body.as_str());
    emit(out, sep);
    let ghost base = texts(old(out)@) + table_lines(*table, indent@).take(2);
    assert(texts(out@) =~= base);
    let mut r: usize = 0;
    while r < table.rows.len()
        invariant
            r <= table.rows@.len(),
            gw == widths_of(*table),
            gw.len() == widths@.len(),
            forall|j: int| 0 <= j < widths@.len() ==> widths@[j] as int == gw[j],
            texts(out@) == base + table.rows_view().take(r as int).map_values(
                |c: Seq<Seq<char>>| row_line(c, gw, indent@),
            ),
        decreases table.rows@.len() - r,
    {
        let line = row_text(&table.rows[r], &widths, indent, Ghost(gw));
        assert(texts(table.rows@[r as int]@) =~= table.rows_view()[r as int]);
        emit(out, line);
        assert(table.rows_view().take(r + 1).map_values(|c: Seq<Seq<char>>| row_line(c, gw, indent@))
            =~= table.rows_view().take(r as int).map_values(|c: Seq<Seq<char>>| row_line(c, gw, indent@)).push(
            row_line(table.rows_view()[r as int], gw, indent@),
        ));
        r += 1;
    }
    assert(table.rows_view().take(r as int) =~= table.rows_view());
    assert(texts(out@) =~= texts(old(out)@) + table_lines(*table, indent@));
}

/// Appends the lines of one step.
fn emit_step(out: &mut Vec<String>, step: &Step)
    ensures
        texts(final(out)@) == texts(old(out)@) + step_lines(*step),
{
    emit_blank(out);
    let mut head = String::from_str("[");
    let num = uint_text(step.number as u128);
    push_str(&mut head, num.as_str());
    push_str(&mut head, "] ");
    push_str(&mut head, step.title.as_str());
    emit(out, head);
    let ghost base = texts(old(out)@) + seq![Seq::<char>::empty(), "["@ + dec(step.number as int) + "] "@ + step.title@];
    assert(texts(out@) =~= base);
    let mut k: usize = 0;
    while k < step.lines.len()
        invariant
            k <= step.lines@.len(),
            texts(out@) == base + step.lines@.take(k as int).map_values(|l: String| "    "@ + l@),
        decreases step.lines@.len() - k,
    {
        let mut l = String::from_str("    ");
        push_str(&mut l, step.lines[k].as_str());
        emit(out, l);
        assert(step.lines@.take(k + 1).map_values(|l: String| "    "@ + l@) =~= step.lines@.take(
            k as int,
        ).map_values(|l: String| "    "@ + l@).push("    "@ + step.lines@[k as int]@));
        k += 1;
    }
    assert(step.lines@.take(k as int) =~= step.lines@);
    match &step.table {
        Some(t) => {
            emit_blank(out);
            emit_table(out, t, "    ");
        },
        None => {},
    }
    assert(texts(out@) =~= texts(old(out)@) + step_lines(*step));
}

/// Appends "  name = value" for each entry, after a blank line and the title;
/// nothing when there are no entries.
fn emit_block(out: &mut Vec<String>, title: &str, v: &Vec<(String, String)>)
    ensures
        texts(final(out)@) == texts(old(out)@) + block(
            title@,
            entry_lines(crate::trace::pairs_view(v@)),
        ),
{
    if v.len() == 0 {
        assert(texts(out@) =~= texts(old(out)@) + block(title@, entry_lines(crate::trace::pairs_view(v@))));
        return;
    }
    emit_blank(out);
    emit_str(out, title);
    let ghost base = texts(old(out)@) + seq![Seq::<char>::empty(), title@];
    let ghost es = entry_lines(crate::trace::pairs_view(v@));
    assert(texts(out@) =~= base);
    let mut k: usize = 0;
    while k < v.len()
        invariant
            k <= v@.len(),
            es == entry_lines(crate::trace::pairs_view(v@)),
            texts(out@) == base + es.take(k as int),
        decreases v@.len() - k,
    {
        let mut l = String::from_str("  ");
        push_str(&mut l, v[k].0.as_str());
        push_str(&mut l, " = ");
        push_str(&mut l, v[k].1.as_str());
        emit(out, l);
        assert(es.take(k + 1) =~= es.take(k as int).push(es[k as int]));
        k += 1;
    }
    assert(es.take(k as int) =~= es);
}

/// The full layout of a trace, line by line.
pub fn render(trace: &Trace) -> (lines: Vec<String>)
    ensures
        texts(lines@) == trace_lines(*trace),
{
    let mut out: Vec<String> = Vec::new();
    emit_blank(&mut out);
    let mut head = String::from_str("Algorithmus: ");
    push_str(&mut head, trace.algorithm.as_str());
    emit(&mut out, head);
    emit_block(&mut out, "Eingaben:", &trace.inputs);
    let ghost before_steps = texts(out@);
    if trace.steps.len() > 0 {
        emit_blank(&mut out);
        emit_str(&mut out, "Schritte:");
        let ghost base = texts(out@);
        let ghost all = trace.steps@.map_values(|s: Step| step_lines(s));
        let mut k: usize = 0;
        assert(all.take(0).flatten() =~= Seq::<Seq<char>>::empty());
        while k < trace.steps.len()
            invariant
                k <= trace.steps@.len(),
                all == trace.steps@.map_values(|s: Step| step_lines(s)),
                texts(out@) == base + all.take(k as int).flatten(),
            decreases trace.steps@.len() - k,
        {
            emit_step(&mut out, &trace.steps[k]);
            proof {
                assert(all.take(k + 1) =~= all.take(k as int).push(all[k as int]));
                all.take(k as int).lemma_flatten_push(all[k as int]);
            }
            k += 1;
        }
        assert(all.take(k as int) =~= all);
    }
    emit_block(&mut out, "Ergebnis:", &trace.result);
    emit_blank(&mut out);
    assert(texts(out@) =~= trace_lines(*trace));
    out
}

/// The short layout of a trace: algorithm and results.
pub fn render_summary(trace: &Trace) -> (lines: Vec<String>)
    ensures
        texts(lines@) == summary_lines(*trace),
{
    let mut out: Vec<String> = Vec::new();
    emit_blank(&mut out);
    let mut head = String::from_str("Algorithmus: ");
    push_str(&mut head, trace.algorithm.as_str());
    emit(&mut out, head);
    emit_block(&mut out, "Ergebnis:", &trace.result);
    emit_blank(&mut out);
    assert(texts(out@) =~= summary_lines(*trace));
    out
}

/// The layout of an error: "Fehler: " and its message, between blank lines.
pub fn render_error(err: &CalcError) -> (lines: Vec<String>)
    ensures
        texts(lines@) == seq![Seq::<char>::empty(), "Fehler: "@ + message_view(*err), Seq::<char>::empty()],
{
    let mut out: Vec<String> = Vec::new();
    emit_blank(&mut out);
    let mut m = String::from_str("Fehler: ");
    let msg = err.message();
    push_str(&mut m, msg.as_str());
    emit(&mut out, m);
    emit_blank(&mut out);
    assert(texts(out@) =~= seq![Seq::<char>::empty(), "Fehler: "@ + message_view(*err), Seq::<char>::empty()]);
    out
}

} // verus!
