//! Step-by-step record of a computation: inputs, numbered steps with text
//! lines and optional tables, and named results.
use vstd::prelude::*;
use crate::text::{Piece, dec, pieces_view, int_text, render};

verus! {

/// A table of strings shown in a step.
#[derive(Debug, Clone)]
pub struct Table {
    pub headers: Vec<String>,
    pub rows: Vec<Vec<String>>,
}

/// One numbered step of a trace.
#[derive(Debug, Clone)]
pub struct Step {
    pub number: usize,
    pub title: String,
    pub lines: Vec<String>,
    pub table: Option<Table>,
}

/// The record of one computation.
#[derive(Debug, Clone)]
pub struct Trace {
    pub algorithm: String,
    pub inputs: Vec<(String, String)>,
    pub steps: Vec<Step>,
    pub result: Vec<(String, String)>,
}

/// The name/value pairs of a list of entries, as text.
pub open spec fn pairs_view(v: Seq<(String, String)>) -> Seq<(Seq<char>, Seq<char>)> {
    v.map_values(|p: (String, String)| (p.0@, p.1@))
}

impl Table {
    /// The headers as text.
    pub open spec fn header_view(&self) -> Seq<Seq<char>> {
        self.headers@.map_values(|h: String| h@)
    }

    /// The rows as text.
    pub open spec fn rows_view(&self) -> Seq<Seq<Seq<char>>> {
        self.rows@.map_values(|r: Vec<String>| r@.map_values(|c: String| c@))
    }
}

impl Trace {
    /// The result entries as text.
    pub open spec fn results(&self) -> Seq<(Seq<char>, Seq<char>)> {
        pairs_view(self.result@)
    }

    /// The input entries as text.
    pub open spec fn input_list(&self) -> Seq<(Seq<char>, Seq<char>)> {
        pairs_view(self.inputs@)
    }

    /// The text lines of step `k`.
    pub open spec fn step_lines(&self, k: int) -> Seq<Seq<char>> {
        self.steps@[k].lines@.map_values(|l: String| l@)
    }

    /// The titles of the steps, in order.
    pub open spec fn step_titles(&self) -> Seq<Seq<char>> {
        self.steps@.map_values(|s: Step| s.title@)
    }

    /// Steps are numbered 1, 2, 3, ... in order.
    pub open spec fn well_formed(&self) -> bool {
        forall|i: int| 0 <= i < self.steps@.len() ==> #[trigger] self.steps@[i].number == i + 1
    }

    /// An empty trace for the named algorithm.
    pub fn new(algorithm: &str) -> (t: Self)
        ensures
            t.algorithm@ == algorithm@,
            t.inputs@.len() == 0,
            t.steps@.len() == 0,
            t.result@.len() == 0,
            t.well_formed(),
    {
        Trace {
            algorithm: String::from_str(algorithm),
            inputs: Vec::new(),
            steps: Vec::new(),
            result: Vec::new(),
        }
    }

    /// Appends an input entry.
    pub fn input(&mut self, name: &str, value: &str)
        ensures
            final(self).input_list() == old(self).input_list().push((name@, value@)),
            final(self).algorithm == old(self).algorithm,
            final(self).steps == old(self).steps,
            final(self).result == old(self).result,
    {
        self.inputs.push((String::from_str(name), String::from_str(value)));
        proof {
            assert(pairs_view(self.inputs@) =~= pairs_view(old(self).inputs@).push((name@, value@)));
        }
    }

    /// Opens a new step and returns its index.
    pub fn step(&mut self, title: &str) -> (idx: usize)
        requires
            old(self).steps@.len() < usize::MAX,
        ensures
            idx == old(self).steps@.len(),
            final(self).steps@.len() == old(self).steps@.len() + 1,
            final(self).steps@.subrange(0, idx as int) == old(self).steps@,
            forall|i: int| 0 <= i < idx ==> #[trigger] final(self).steps@[i] == old(self).steps@[i],
            final(self).steps@[idx as int].number == idx + 1,
            final(self).steps@[idx as int].title@ == title@,
            final(self).steps@[idx as int].lines@.len() == 0,
            final(self).steps@[idx as int].table is None,
            old(self).well_formed() ==> final(self).well_formed(),
            final(self).algorithm == old(self).algorithm,
            final(self).inputs == old(self).inputs,
            final(self).result == old(self).result,
    {
        let n = self.steps.len() + 1;
        self.steps.push(
            Step { number: n, title: String::from_str(title), lines: Vec::new(), table: None },
        );
        proof {
            assert(self.steps@.subrange(0, (n - 1) as int) =~= old(self).steps@);
        }
        self.steps.len() - 1
    }

    /// Appends a line of text to step `idx`.
    pub fn line(&mut self, idx: usize, text: &str)
        requires
            idx < old(self).steps@.len(),
        ensures
            final(self).steps@.len() == old(self).steps@.len(),
            forall|i: int|
                0 <= i < old(self).steps@.len() && i != idx ==> #[trigger] final(self).steps@[i]
                    == old(self).steps@[i],
            final(self).steps@[idx as int].number == old(self).steps@[idx as int].number,
            final(self).steps@[idx as int].title == old(self).steps@[idx as int].title,
            final(self).steps@[idx as int].table == old(self).steps@[idx as int].table,
            final(self).steps@[idx as int].lines@.len() == old(self).steps@[idx as int].lines@.len() + 1,
            final(self).steps@[idx as int].lines@.last()@ == text@,
            final(self).steps@[idx as int].lines@.drop_last() == old(self).steps@[idx as int].lines@,
            old(self).well_formed() ==> final(self).well_formed(),
            final(self).algorithm == old(self).algorithm,
            final(self).inputs == old(self).inputs,
            final(self).result == old(self).result,
    {
        self.steps[idx].lines.push(String::from_str(text));
        proof {
            assert(self.steps@[idx as int].lines@.drop_last() =~= old(self).steps@[idx as int].lines@);
        }
    }

    /// Attaches a table to step `idx`, replacing any earlier one.
    pub fn table(&mut self, idx: usize, table: Table)
        requires
            idx < old(self).steps@.len(),
        ensures
            final(self).steps@.len() == old(self).steps@.len(),
            forall|i: int|
                0 <= i < old(self).steps@.len() && i != idx ==> #[trigger] final(self).steps@[i]
                    == old(self).steps@[i],
            final(self).steps@[idx as int].number == old(self).steps@[idx as int].number,
            final(self).steps@[idx as int].title == old(self).steps@[idx as int].title,
            final(self).steps@[idx as int].lines == old(self).steps@[idx as int].lines,
            final(self).steps@[idx as int].table == Some(table),
            old(self).well_formed() ==> final(self).well_formed(),
            final(self).algorithm == old(self).algorithm,
            final(self).inputs == old(self).inputs,
            final(self).result == old(self).result,
    {
        self.steps[idx].table = Some(table);
    }

    /// Appends a result entry.
    pub fn result(&mut self, name: &str, value: &str)
        ensures
            final(self).results() == old(self).results().push((name@, value@)),
            final(self).algorithm == old(self).algorithm,
            final(self).inputs == old(self).inputs,
            final(self).steps == old(self).steps,
    {
        self.result.push((String::from_str(name), String::from_str(value)));
        proof {
            assert(pairs_view(self.result@) =~= pairs_view(old(self).result@).push((name@, value@)));
        }
    }

    /// Appends an input entry whose value is an integer in decimal.
    pub fn input_int(&mut self, name: &str, value: i128)
        ensures
            final(self).input_list() == old(self).input_list().push((name@, dec(value as int))),
            final(self).algorithm == old(self).algorithm,
            final(self).steps == old(self).steps,
            final(self).result == old(self).result,
    {
        let v = int_text(value);
        self.input(name, v.as_str());
    }

    /// Appends a result entry whose value is an integer in decimal.
    pub fn result_int(&mut self, name: &str, value: i128)
        ensures
            final(self).results() == old(self).results().push((name@, dec(value as int))),
            final(self).algorithm == old(self).algorithm,
            final(self).inputs == old(self).inputs,
            final(self).steps == old(self).steps,
    {
        let v = int_text(value);
        self.result(name, v.as_str());
    }

    /// Appends a line made of literal and numeric pieces to step `idx`.
    pub fn line_of(&mut self, idx: usize, ps: &[Piece])
        requires
            idx < old(self).steps@.len(),
        ensures
            final(self).steps@.len() == old(self).steps@.len(),
            forall|i: int|
                0 <= i < old(self).steps@.len() && i != idx ==> #[trigger] final(self).steps@[i]
                    == old(self).steps@[i],
            final(self).steps@[idx as int].number == old(self).steps@[idx as int].number,
            final(self).steps@[idx as int].title == old(self).steps@[idx as int].title,
            final(self).steps@[idx as int].table == old(self).steps@[idx as int].table,
            final(self).steps@[idx as int].lines@.len() == old(self).steps@[idx as int].lines@.len() + 1,
            final(self).steps@[idx as int].lines@.last()@ == pieces_view(ps@),
            final(self).steps@[idx as int].lines@.drop_last() == old(self).steps@[idx as int].lines@,
            old(self).well_formed() ==> final(self).well_formed(),
            final(self).algorithm == old(self).algorithm,
            final(self).inputs == old(self).inputs,
            final(self).result == old(self).result,
    {
        let text = render(ps);
        self.line(idx, text.as_str());
    }
}

} // verus!
