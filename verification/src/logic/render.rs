//! Compressed tables and errors as text.

use vstd::prelude::*;

use crate::logic::compress::entries;
use crate::logic::table::{CompressedTable, Entry, Error, Tri};
use crate::text::{
    concat, contains_text, decimal, decimal_text, join, joined, lemma_concat_push, texts,
};

verus! {

/// The positions, among the first `k`, of the variables that are not dead.
pub open spec fn live_positions(variables: Seq<Seq<char>>, dead: Seq<Seq<char>>, k: nat) -> Seq<int>
    decreases k,
{
    if k == 0 {
        Seq::empty()
    } else if dead.contains(variables[k - 1]) {
        live_positions(variables, dead, (k - 1) as nat)
    } else {
        live_positions(variables, dead, (k - 1) as nat).push(k - 1)
    }
}

pub open spec fn tri_text(t: Tri) -> Seq<char> {
    match t {
        Tri::True => "T"@,
        Tri::False => "F"@,
        Tri::Any => "-"@,
    }
}

/// One cell with its closing bar.
pub open spec fn cell(content: Seq<char>) -> Seq<char> {
    " "@ + content + " |"@
}

pub open spec fn header_line(variables: Seq<Seq<char>>, live: Seq<int>) -> Seq<char> {
    concat(live.map_values(|i: int| cell(variables[i])))
}

pub open spec fn rule_line(rule: Entry, live: Seq<int>) -> Seq<char> {
    "|"@ + concat(live.map_values(|i: int| cell(tri_text(rule.when[i])))) + " "@ + rule.outcome + " |\n"@
}

pub open spec fn separators(live: Seq<int>) -> Seq<char> {
    concat(live.map_values(|i: int| "---|"@))
}

/// The table in Markdown: live columns only, the dead variables listed below.
pub open spec fn markdown(variables: Seq<Seq<char>>, rules: Seq<Entry>, dead: Seq<Seq<char>>) -> Seq<char> {
    let live = live_positions(variables, dead, variables.len());
    let table = "|"@ + header_line(variables, live) + " outcome |\n|"@ + separators(live) + "---|\n"@ + concat(
        rules.map_values(|r: Entry| rule_line(r, live)),
    );
    if dead.len() == 0 {
        table
    } else {
        table + "\nDead variables (no effect on any observed outcome): "@ + joined(dead, ", "@) + "\n"@
    }
}

spec fn ints(v: Seq<usize>) -> Seq<int> {
    v.map_values(|i: usize| i as int)
}

impl CompressedTable {
    /// Positions of the live (non-dead) variables in table order.
    fn live(&self) -> (r: Vec<usize>)
        ensures
            ints(r@) == live_positions(texts(self.variables@), texts(self.dead_variables@), self.variables@.len()),
            forall|k: int| 0 <= k < r@.len() ==> (#[trigger] r@[k]) < self.variables@.len(),
    {
        let mut r: Vec<usize> = Vec::new();
        let ghost names = texts(self.variables@);
        let ghost dead = texts(self.dead_variables@);
        let mut i: usize = 0;
        assert(ints(r@) =~= Seq::empty());
        while i < self.variables.len()
            invariant
                i <= self.variables.len(),
                names == texts(self.variables@),
                dead == texts(self.dead_variables@),
                ints(r@) == live_positions(names, dead, i as nat),
                forall|k: int| 0 <= k < r@.len() ==> (#[trigger] r@[k]) < self.variables@.len(),
            decreases self.variables.len() - i,
        {
            if !contains_text(self.dead_variables.as_slice(), self.variables[i].as_str()) {
                let ghost r0 = r@;
                r.push(i);
                assert(ints(r@) =~= ints(r0).push(i as int));
            }
            i = i + 1;
        }
        r
    }

    /// Live (non-dead) variables in table order.
    pub fn live_variables(&self) -> (r: Vec<&str>)
        ensures
            r@.map_values(|s: &str| s@) == live_positions(
                texts(self.variables@),
                texts(self.dead_variables@),
                self.variables@.len(),
            ).map_values(|i: int| texts(self.variables@)[i]),
    {
        let live = self.live();
        let mut r: Vec<&str> = Vec::new();
        let mut i: usize = 0;
        while i < live.len()
            invariant
                i <= live.len(),
                forall|k: int| 0 <= k < live@.len() ==> (#[trigger] live@[k]) < self.variables@.len(),
                r@.len() == i,
                forall|k: int| 0 <= k < i ==> (#[trigger] r@[k])@ == texts(self.variables@)[live@[k] as int],
            decreases live.len() - i,
        {
            r.push(self.variables[live[i]].as_str());
            i = i + 1;
        }
        proof {
            let p = live_positions(texts(self.variables@), texts(self.dead_variables@), self.variables@.len());
            assert forall|k: int| 0 <= k < live@.len() implies p[k] == live@[k] by {
                assert(ints(live@)[k] == live@[k]);
            }
            assert(r@.map_values(|s: &str| s@) =~= p.map_values(|i: int| texts(self.variables@)[i]));
        }
        r
    }

    /// Render as a Markdown table. Dead variables are omitted from the
    /// columns and listed below the table.
    pub fn to_markdown(&self) -> (r: String)
        requires
            self.wf(),
        ensures
            r@ == markdown(texts(self.variables@), entries(self.rules@), texts(self.dead_variables@)),
    {
        let live = self.live();
        let ghost names = texts(self.variables@);
        let ghost es = entries(self.rules@);
        let ghost lp = ints(live@);
        let mut out = String::new();
        out.append("|");
        let ghost heads = lp.map_values(|i: int| cell(names[i]));
        let ghost start = out@;
        let mut i: usize = 0;
        assert(heads.take(0) =~= Seq::empty());
        assert(out@ =~= start + concat(heads.take(0)));
        while i < live.len()
            invariant
                i <= live.len(),
                names == texts(self.variables@),
                lp == ints(live@),
                heads == lp.map_values(|i: int| cell(names[i])),
                forall|k: int| 0 <= k < live@.len() ==> (#[trigger] live@[k]) < self.variables@.len(),
                out@ == start + concat(heads.take(i as int)),
            decreases live.len() - i,
        {
            out.append(" ");
            out.append(self.variables[live[i]].as_str());
            out.append(" |");
            proof {
                lemma_concat_push(heads.take(i as int), heads[i as int]);
                assert(heads.take(i + 1) =~= heads.take(i as int).push(heads[i as int]));
                assert(out@ =~= start + concat(heads.take(i + 1)));
            }
            i = i + 1;
        }
        assert(heads.take(i as int) =~= heads);
        out.append(" outcome |\n|");
        let ghost start = out@;
        let ghost seps = lp.map_values(|i: int| "---|"@);
        let mut i: usize = 0;
        assert(seps.take(0) =~= Seq::empty());
        assert(out@ =~= start + concat(seps.take(0)));
        while i < live.len()
            invariant
                i <= live.len(),
                lp == ints(live@),
                seps == lp.map_values(|i: int| "---|"@),
                out@ == start + concat(seps.take(i as int)),
            decreases live.len() - i,
        {
            out.append("---|");
            proof {
                lemma_concat_push(seps.take(i as int), seps[i as int]);
                assert(seps.take(i + 1) =~= seps.take(i as int).push(seps[i as int]));
                assert(out@ =~= start + concat(seps.take(i + 1)));
            }
            i = i + 1;
        }
        assert(seps.take(i as int) =~= seps);
        out.append("---|\n");
        let ghost start = out@;
        let ghost lines = es.map_values(|r: Entry| rule_line(r, lp));
        let mut i: usize = 0;
        assert(lines.take(0) =~= Seq::empty());
        assert(out@ =~= start + concat(lines.take(0)));
        while i < self.rules.len()
            invariant
                i <= self.rules.len(),
                self.wf(),
                es == entries(self.rules@),
                lp == ints(live@),
                lines == es.map_values(|r: Entry| rule_line(r, lp)),
                forall|k: int| 0 <= k < live@.len() ==> (#[trigger] live@[k]) < self.variables@.len(),
                out@ == start + concat(lines.take(i as int)),
            decreases self.rules.len() - i,
        {
            self.push_rule(&mut out, i, &live);
            proof {
                lemma_concat_push(lines.take(i as int), lines[i as int]);
                assert(lines.take(i + 1) =~= lines.take(i as int).push(lines[i as int]));
                assert(out@ =~= start + concat(lines.take(i + 1)));
            }
            i = i + 1;
        }
        assert(lines.take(i as int) =~= lines);
        if self.dead_variables.len() > 0 {
            out.append("\nDead variables (no effect on any observed outcome): ");
            out.append(join(self.dead_variables.as_slice(), ", ").as_str());
            out.append("\n");
        }
        out
    }

    fn push_rule(&self, out: &mut String, k: usize, live: &Vec<usize>)
        requires
            self.wf(),
            k < self.rules@.len(),
            forall|i: int| 0 <= i < live@.len() ==> (#[trigger] live@[i]) < self.variables@.len(),
        ensures
            final(out)@ == old(out)@ + rule_line(entries(self.rules@)[k as int], ints(live@)),
    {
        let rule = &self.rules[k];
        let ghost before = out@;
        let ghost lp = ints(live@);
        out.append("|");
        let ghost cells = lp.map_values(|i: int| cell(tri_text(rule@.when[i])));
        let mut i: usize = 0;
        assert(cells.take(0) =~= Seq::empty());
        assert(out@ =~= before + "|"@ + concat(cells.take(0)));
        while i < live.len()
            invariant
                i <= live.len(),
                lp == ints(live@),
                rule@.when.len() == self.variables@.len(),
                rule.when@ == rule@.when,
                cells == lp.map_values(|i: int| cell(tri_text(rule@.when[i]))),
                forall|i: int| 0 <= i < live@.len() ==> (#[trigger] live@[i]) < self.variables@.len(),
                out@ == before + "|"@ + concat(cells.take(i as int)),
            decreases live.len() - i,
        {
            let content = match rule.when[live[i]] {
                Tri::True => "T",
                Tri::False => "F",
                Tri::Any => "-",
            };
            out.append(" ");
            out.append(content);
            out.append(" |");
            proof {
                lemma_concat_push(cells.take(i as int), cells[i as int]);
                assert(cells.take(i + 1) =~= cells.take(i as int).push(cells[i as int]));
                assert(out@ =~= before + "|"@ + concat(cells.take(i + 1)));
            }
            i = i + 1;
        }
        assert(cells.take(i as int) =~= cells);
        out.append(" ");
        out.append(rule.outcome.as_str());
        out.append(" |\n");
        assert(out@ =~= before + rule_line(rule@, lp));
    }
}

/// One `name=value` pair.
pub open spec fn pair_text(pair: (String, bool)) -> Seq<char> {
    pair.0@ + "="@ + if pair.1 {
        "true"@
    } else {
        "false"@
    }
}

/// The message that describes an error.
pub open spec fn error_text(e: Error) -> Seq<char> {
    match e {
        Error::EmptyTable => "decision table has no rows"@,
        Error::TooManyVariables { count, max } => decimal_text(count as nat)
            + " variables exceed the supported maximum of "@ + decimal_text(max as nat),
        Error::ArityMismatch { row, expected, got } => "row "@ + decimal_text(row as nat) + " has "@ + decimal_text(
            got as nat,
        ) + " inputs, expected "@ + decimal_text(expected as nat),
        Error::Conflict { assignment, outcomes } => "conflicting outcomes '"@ + outcomes.0@ + "' and '"@ + outcomes.1@
            + "' for assignment {"@ + joined(assignment@.map_values(|p: (String, bool)| pair_text(p)), ", "@) + "}"@,
    }
}

impl Error {
    /// The error as a message.
    pub fn message(&self) -> (r: String)
        ensures
            r@ == error_text(*self),
    {
        let mut out = String::new();
        match self {
            Error::EmptyTable => {
                out.append("decision table has no rows");
            },
            Error::TooManyVariables { count, max } => {
                out.append(decimal(*count as u128).as_str());
                out.append(" variables exceed the supported maximum of ");
                out.append(decimal(*max as u128).as_str());
            },
            Error::ArityMismatch { row, expected, got } => {
                out.append("row ");
                out.append(decimal(*row as u128).as_str());
                out.append(" has ");
                out.append(decimal(*got as u128).as_str());
                out.append(" inputs, expected ");
                out.append(decimal(*expected as u128).as_str());
            },
            Error::Conflict { assignment, outcomes } => {
                out.append("conflicting outcomes '");
                out.append(outcomes.0.as_str());
                out.append("' and '");
                out.append(outcomes.1.as_str());
                out.append("' for assignment {");
                let mut parts: Vec<String> = Vec::new();
                let mut i: usize = 0;
                while i < assignment.len()
                    invariant
                        i <= assignment.len(),
                        parts@.len() == i,
                        forall|k: int| 0 <= k < i ==> (#[trigger] parts@[k])@ == pair_text(assignment@[k]),
                    decreases assignment.len() - i,
                {
                    let mut part = assignment[i].0.clone();
                    part.append("=");
                    part.append(
                        if assignment[i].1 {
                            "true"
                        } else {
                            "false"
                        },
                    );
                    assert(part@ =~= pair_text(assignment@[i as int]));
                    parts.push(part);
                    i = i + 1;
                }
                assert(texts(parts@) =~= assignment@.map_values(|p: (String, bool)| pair_text(p)));
                out.append(join(parts.as_slice(), ", ").as_str());
                out.append("}");
            },
        }
        assert(out@ =~= error_text(*self));
        out
    }
}

} // verus!
