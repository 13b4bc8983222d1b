//! A trace of a method as a document.

use vstd::prelude::*;

use crate::lift::debug::{TraceResult, TraceStatus, TraceStep};
use crate::lift::symbolic::pairs;
use crate::text::{concat, decimal, decimal_text, join, joined, lemma_concat_push, texts};

verus! {

/// A step as mathematics.
pub open spec fn step_line(s: TraceStep) -> Seq<char> {
    "- L"@ + decimal_text(s.line as nat) + "  "@ + s.text@ + "\n"@
}

/// Numbers in a list.
pub open spec fn numbers_text(v: Seq<usize>) -> Seq<char> {
    "["@ + joined(v.map_values(|n: usize| decimal_text(n as nat)), ", "@) + "]"@
}

/// The branches from a number on, one per line.
pub open spec fn branch_lines(branches: Seq<Seq<char>>) -> Seq<Seq<char>> {
    Seq::new(branches.len(), |i: int| "- "@ + decimal_text(i as nat) + ": "@ + branches[i] + "\n"@)
}

pub open spec fn status_text(status: TraceStatus) -> Seq<char> {
    match status {
        TraceStatus::AwaitingChoice { branches } =>
            "Paused at a branch — choose a world line by appending its index to `choices`:\n"@ + concat(
            branch_lines(texts(branches@)),
        ),
        TraceStatus::Terminated { outcome } => "Terminated → "@ + outcome@ + "\n"@,
        TraceStatus::FallThrough => "Fell through to the end of the method (no explicit return).\n"@,
        TraceStatus::StepCap =>
            "Hit the step cap before reaching a branch or end (method too large to trace in one call).\n"@,
    }
}

/// Variables with their values.
pub open spec fn variable_texts(v: Seq<(Seq<char>, Seq<char>)>) -> Seq<Seq<char>> {
    v.map_values(|p: (Seq<char>, Seq<char>)| p.0 + " = "@ + p.1)
}

/// The lines of a list, or a note where there are none.
pub open spec fn or_note(text: Seq<char>, empty: bool, note: Seq<char>) -> Seq<char> {
    if empty {
        note
    } else {
        text
    }
}

/// The document on a trace.
pub open spec fn trace_document(
    fqn: Seq<char>,
    file: Seq<char>,
    line: u32,
    choices: Seq<usize>,
    r: TraceResult,
) -> Seq<char> {
    "# Debug trace: "@ + fqn + " ("@ + file + ":"@ + decimal_text(line as nat) + ")\n\n"@ + or_note(
        "Choices replayed: "@ + numbers_text(choices) + "\n\n"@,
        choices.len() == 0,
        Seq::empty(),
    ) + "## Executed\n"@ + or_note(
        concat(r.executed@.map_values(|s: TraceStep| step_line(s))),
        r.executed@.len() == 0,
        "(nothing — already at a branch or the start)\n"@,
    ) + "\n## State\n- Call stack: "@ + joined(texts(r.call_stack@), " › "@) + "\n"@ + or_note(
        "- Variables: "@ + joined(variable_texts(pairs(r.variables@)), ", "@) + "\n"@,
        r.variables@.len() == 0,
        "- Variables: (none)\n"@,
    ) + or_note(
        "- Context Rules: "@ + joined(texts(r.context_rules@), " ∧ "@) + "\n"@,
        r.context_rules@.len() == 0,
        "- Context Rules: (none — no branch taken)\n"@,
    ) + or_note(
        "\n> ⚠ incomplete: this path stepped over an unmodeled construct (switch/try) that can itself return/throw — the outcome below may not be the method's real behavior on this path.\n"@,
        !r.incomplete,
        Seq::empty(),
    ) + "\n## Status\n"@ + status_text(r.status)
}

fn write_numbers(v: &[usize]) -> (r: String)
    ensures
        r@ == numbers_text(v@),
{
    let ghost all = v@.map_values(|n: usize| decimal_text(n as nat));
    let mut list: Vec<String> = Vec::new();
    let mut i: usize = 0;
    assert(texts(list@) =~= all.take(0));
    while i < v.len()
        invariant
            i <= v@.len(),
            all == v@.map_values(|n: usize| decimal_text(n as nat)),
            texts(list@) == all.take(i as int),
        decreases v.len() - i,
    {
        let ghost before = texts(list@);
        let text = decimal(v[i] as u128);
        let ghost item = text@;
        list.push(text);
        i = i + 1;
        assert(texts(list@) =~= before.push(item));
        assert(texts(list@) =~= all.take(i as int));
    }
    assert(all.take(i as int) =~= all);
    let mut out = "[".to_owned();
    out.append(join(list.as_slice(), ", ").as_str());
    out.append("]");
    out
}

fn write_steps(v: &Vec<TraceStep>) -> (r: String)
    ensures
        r@ == concat(v@.map_values(|s: TraceStep| step_line(s))),
{
    let ghost all = v@.map_values(|s: TraceStep| step_line(s));
    let mut out = String::new();
    let mut i: usize = 0;
    assert(out@ =~= concat(all.take(0)));
    while i < v.len()
        invariant
            i <= v@.len(),
            all == v@.map_values(|s: TraceStep| step_line(s)),
            out@ == concat(all.take(i as int)),
        decreases v.len() - i,
    {
        let mut line = "- L".to_owned();
        line.append(decimal(v[i].line as u128).as_str());
        line.append("  ");
        line.append(v[i].text.as_str());
        line.append("\n");
        proof {
            lemma_concat_push(all.take(i as int), line@);
            assert(all.take(i + 1) =~= all.take(i as int).push(line@));
        }
        out.append(line.as_str());
        i = i + 1;
    }
    assert(all.take(i as int) =~= all);
    out
}

fn write_branches(v: &Vec<String>) -> (r: String)
    ensures
        r@ == concat(branch_lines(texts(v@))),
{
    let ghost all = branch_lines(texts(v@));
    let mut out = String::new();
    let mut i: usize = 0;
    assert(out@ =~= concat(all.take(0)));
    while i < v.len()
        invariant
            i <= v@.len(),
            all == branch_lines(texts(v@)),
            out@ == concat(all.take(i as int)),
        decreases v.len() - i,
    {
        let mut line = "- ".to_owned();
        line.append(decimal(i as u128).as_str());
        line.append(": ");
        line.append(v[i].as_str());
        line.append("\n");
        proof {
            assert(texts(v@)[i as int] == v@[i as int]@);
            lemma_concat_push(all.take(i as int), line@);
            assert(all.take(i + 1) =~= all.take(i as int).push(line@));
        }
        out.append(line.as_str());
        i = i + 1;
    }
    assert(all.take(i as int) =~= all);
    out
}

fn write_variables(v: &Vec<(String, String)>) -> (r: String)
    ensures
        r@ == joined(variable_texts(pairs(v@)), ", "@),
{
    let ghost all = variable_texts(pairs(v@));
    let mut list: Vec<String> = Vec::new();
    let mut i: usize = 0;
    assert(texts(list@) =~= all.take(0));
    while i < v.len()
        invariant
            i <= v@.len(),
            all == variable_texts(pairs(v@)),
            texts(list@) == all.take(i as int),
        decreases v.len() - i,
    {
        let ghost before = texts(list@);
        let p = &v[i];
        assert(pairs(v@)[i as int] == (p.0@, p.1@));
        let mut text = p.0.clone();
        text.append(" = ");
        text.append(p.1.as_str());
        let ghost item = text@;
        list.push(text);
        i = i + 1;
        assert(texts(list@) =~= before.push(item));
        assert(texts(list@) =~= all.take(i as int));
    }
    assert(all.take(i as int) =~= all);
    join(list.as_slice(), ", ")
}

fn write_status(status: &TraceStatus) -> (r: String)
    ensures
        r@ == status_text(*status),
{
    match status {
        TraceStatus::AwaitingChoice { branches } => {
            let mut out = "Paused at a branch — choose a world line by appending its index to `choices`:\n".to_owned();
            out.append(write_branches(branches).as_str());
            out
        },
        TraceStatus::Terminated { outcome } => {
            let mut out = "Terminated → ".to_owned();
            out.append(outcome.as_str());
            out.append("\n");
            out
        },
        TraceStatus::FallThrough => "Fell through to the end of the method (no explicit return).\n".to_owned(),
        TraceStatus::StepCap => {
            "Hit the step cap before reaching a branch or end (method too large to trace in one call).\n".to_owned()
        },
    }
}

/// Writes the document on a trace.
pub fn write_trace(fqn: &str, file: &str, line: u32, choices: &[usize], result: &TraceResult) -> (r: String)
    ensures
        r@ == trace_document(fqn@, file@, line, choices@, *result),
{
    let ghost res = *result;
    let mut out = "# Debug trace: ".to_owned();
    out.append(fqn);
    out.append(" (");
    out.append(file);
    out.append(":");
    out.append(decimal(line as u128).as_str());
    out.append(")\n\n");
    let ghost d1 = out@;
    if choices.len() > 0 {
        out.append("Choices replayed: ");
        out.append(write_numbers(choices).as_str());
        out.append("\n\n");
    }
    let ghost p1 = or_note("Choices replayed: "@ + numbers_text(choices@) + "\n\n"@, choices@.len() == 0, Seq::empty());
    assert(out@ =~= d1 + p1);
    out.append("## Executed\n");
    if result.executed.len() == 0 {
        out.append("(nothing — already at a branch or the start)\n");
    } else {
        out.append(write_steps(&result.executed).as_str());
    }
    out.append("\n## State\n- Call stack: ");
    out.append(join(result.call_stack.as_slice(), " › ").as_str());
    out.append("\n");
    if result.variables.len() == 0 {
        out.append("- Variables: (none)\n");
    } else {
        let ghost d3 = out@;
        let variables = write_variables(&result.variables);
        out.append("- Variables: ");
        out.append(variables.as_str());
        out.append("\n");
        assert(out@ =~= d3 + ("- Variables: "@ + variables@ + "\n"@));
    }
    if result.context_rules.len() == 0 {
        out.append("- Context Rules: (none — no branch taken)\n");
    } else {
        let ghost d4 = out@;
        let rules = join(result.context_rules.as_slice(), " ∧ ");
        out.append("- Context Rules: ");
        out.append(rules.as_str());
        out.append("\n");
        assert(out@ =~= d4 + ("- Context Rules: "@ + rules@ + "\n"@));
    }
    let ghost d5 = out@;
    if result.incomplete {
        out.append(
            "\n> ⚠ incomplete: this path stepped over an unmodeled construct (switch/try) that can itself return/throw — the outcome below may not be the method's real behavior on this path.\n",
        );
    } else {
        assert(out@ =~= d5 + Seq::empty());
    }
    out.append("\n## Status\n");
    out.append(write_status(&result.status).as_str());
    assert(out@ == trace_document(fqn@, file@, line, choices@, res));
    out
}

} // verus!
