//! Decision tables: observed rows in, minimized rules out.

use vstd::prelude::*;

use crate::text::texts;

verus! {

/// Upper bound on variables per table (minterm space is `2^n`).
pub const MAX_VARIABLES: usize = 16;

/// Value of one condition along one observed path.
#[derive(Debug, Clone, Copy, PartialEq, Eq, Hash, Structural)]
pub enum Tri {
    True,
    False,
    /// Not evaluated / irrelevant on this path (don't care).
    Any,
}

/// One observed path: condition values plus the outcome it produced.
#[derive(Debug, Clone, PartialEq, Eq)]
pub struct Row {
    pub inputs: Vec<Tri>,
    pub outcome: String,
}

/// An uncompressed decision table: named conditions and observed rows.
#[derive(Debug, Clone)]
pub struct DecisionTable {
    variables: Vec<String>,
    rows: Vec<Row>,
}

/// One rule of a compressed table, aligned with the table's variable order.
#[derive(Debug, Clone, PartialEq, Eq)]
pub struct Rule {
    pub when: Vec<Tri>,
    pub outcome: String,
}

/// The compressed decision table produced by `compress`.
#[derive(Debug, Clone, PartialEq, Eq)]
pub struct CompressedTable {
    /// Variable names, same order as the input table.
    pub variables: Vec<String>,
    /// Minimized rules, sorted by outcome label then by rule shape.
    pub rules: Vec<Rule>,
    /// Variables no rule consults: provably irrelevant to every observed
    /// outcome under don't-care freedom for unobserved inputs.
    pub dead_variables: Vec<String>,
}

#[derive(Debug, PartialEq, Eq)]
pub enum Error {
    EmptyTable,
    TooManyVariables { count: usize, max: usize },
    ArityMismatch { row: usize, expected: usize, got: usize },
    /// The same complete input combination was observed with two different
    /// outcomes — a contradiction in the analyzed logic.
    Conflict { assignment: Vec<(String, bool)>, outcomes: (String, String) },
}

/// A row or rule as mathematics: condition values and the outcome's text.
#[verifier::ext_equal]
pub struct Entry {
    pub when: Seq<Tri>,
    pub outcome: Seq<char>,
}

impl View for Row {
    type V = Entry;

    open spec fn view(&self) -> Entry {
        Entry { when: self.inputs@, outcome: self.outcome@ }
    }
}

impl View for Rule {
    type V = Entry;

    open spec fn view(&self) -> Entry {
        Entry { when: self.when@, outcome: self.outcome@ }
    }
}

/// What a decision table holds.
#[verifier::ext_equal]
pub struct TableView {
    pub variables: Seq<Seq<char>>,
    pub rows: Seq<Entry>,
}

impl View for DecisionTable {
    type V = TableView;

    closed spec fn view(&self) -> TableView {
        TableView { variables: texts(self.variables@), rows: self.rows@.map_values(|r: Row| r@) }
    }
}

impl TableView {
    /// Every row has a value for every variable.
    pub open spec fn wf(self) -> bool {
        forall|i: int| 0 <= i < self.rows.len() ==> (#[trigger] self.rows[i]).when.len() == self.variables.len()
    }
}

impl DecisionTable {
    pub fn new(variables: Vec<String>) -> (r: Self)
        ensures
            r@ == (TableView { variables: texts(variables@), rows: Seq::empty() }),
            r@.wf(),
    {
        let r = Self { variables, rows: Vec::new() };
        assert(r@.rows =~= Seq::empty());
        r
    }

    /// Add an observed path. `inputs` must match the variable count.
    pub fn add_row(&mut self, inputs: Vec<Tri>, outcome: &str) -> (r: Result<(), Error>)
        requires
            old(self)@.wf(),
        ensures
            final(self)@.wf(),
            match r {
                Ok(_) => {
                    &&& inputs@.len() == old(self)@.variables.len()
                    &&& final(self)@ == (TableView {
                        variables: old(self)@.variables,
                        rows: old(self)@.rows.push(Entry { when: inputs@, outcome: outcome@ }),
                    })
                },
                Err(e) => {
                    &&& inputs@.len() != old(self)@.variables.len()
                    &&& final(self)@ == old(self)@
                    &&& e == (Error::ArityMismatch {
                        row: old(self)@.rows.len() as usize,
                        expected: old(self)@.variables.len() as usize,
                        got: inputs@.len() as usize,
                    })
                },
            },
    {
        if inputs.len() != self.variables.len() {
            return Err(
                Error::ArityMismatch { row: self.rows.len(), expected: self.variables.len(), got: inputs.len() },
            );
        }
        let row = Row { inputs, outcome: outcome.to_owned() };
        let ghost before = self@;
        self.rows.push(row);
        assert(self@.rows =~= before.rows.push(row@));
        Ok(())
    }

    pub fn variables(&self) -> (r: &[String])
        ensures
            texts(r@) == self@.variables,
    {
        self.variables.as_slice()
    }

    pub fn rows(&self) -> (r: &[Row])
        ensures
            r@.map_values(|r: Row| r@) == self@.rows,
    {
        self.rows.as_slice()
    }
}

impl Default for DecisionTable {
    fn default() -> (r: Self)
        ensures
            r@ == (TableView { variables: Seq::empty(), rows: Seq::empty() }),
            r@.wf(),
    {
        let r = DecisionTable::new(Vec::new());
        assert(r@.variables =~= Seq::empty());
        r
    }
}

} // verus!
