//! The documents on rules name every method that was asked for.

use vstd::prelude::*;

use crate::cli::report::{passing, report_end, skip_line};
use crate::lift::debug::{TraceResult, TraceStatus, TraceStep};
use crate::lift::decision_extractor::{MethodView, MethodsView};
use crate::lift::report_laws::lemma_concat_holds;
use crate::lift::symbolic::pairs;
use crate::lines::begins;
use crate::logic::compress::{entries, is_answer};
use crate::logic::table::{CompressedTable, Error};
use crate::mcp::core_rules::{
    are_sections, is_rules_document, is_section, rules_text, section_text, selected, skipped_lines,
};
use crate::mcp::trace_text::{numbers_text, or_note, status_text, step_line, trace_document, variable_texts};
use crate::seqs::{lemma_filter_contains, lemma_push_contains};
use crate::text::{concat, decimal_text, joined, lemma_find, texts};
use crate::text_laws::{holds, law_joined_holds, lemma_holds_inside, lemma_holds_self};

verus! {

/// The name of a method behind that of its class.
pub open spec fn full_name(d: MethodView) -> Seq<char> {
    if d.class_fqn.len() == 0 {
        d.method_name
    } else {
        d.class_fqn + "."@ + d.method_name
    }
}

proof fn lemma_selected(methods: Seq<MethodView>, fqn: Seq<char>)
    ensures
        selected(methods, fqn) == methods.filter(|d: MethodView| full_name(d) == fqn || d.class_fqn == fqn),
    decreases methods.len(),
{
    reveal(Seq::filter);
    if methods.len() > 0 {
        lemma_selected(methods.drop_last(), fqn);
    }
}

/// A skipped method of the symbol.
pub open spec fn is_skipped(fqn: Seq<char>, p: (Seq<char>, Seq<char>)) -> bool {
    p.0 == fqn || begins(p.0, fqn + "."@)
}

/// What is said of a skipped method.
pub open spec fn skip_text(p: (Seq<char>, Seq<char>)) -> Seq<char> {
    "- skipped "@ + p.0 + ": "@ + p.1 + "\n"@
}

proof fn lemma_skipped(skipped: Seq<(Seq<char>, Seq<char>)>, fqn: Seq<char>, p: (Seq<char>, Seq<char>))
    requires
        skipped.contains(p),
        is_skipped(fqn, p),
    ensures
        skipped_lines(skipped, fqn).contains(skip_text(p)),
    decreases skipped.len(),
{
    let front = skipped.drop_last();
    let before = skipped_lines(front, fqn);
    let last = skipped.last();
    lemma_push_contains(before, skip_text(last));
    if p != last {
        let i = choose|i: int| 0 <= i < skipped.len() && skipped[i] == p;
        assert(front[i] == p);
        lemma_skipped(front, fqn, p);
    }
}

proof fn lemma_selected_contains(methods: Seq<MethodView>, fqn: Seq<char>, d: MethodView)
    requires
        methods.contains(d),
        full_name(d) == fqn || d.class_fqn == fqn,
    ensures
        selected(methods, fqn).contains(d),
{
    lemma_selected(methods, fqn);
    lemma_filter_contains(methods, |d: MethodView| full_name(d) == fqn || d.class_fqn == fqn);
}

/// The document on a symbol holds a section for the method of that name and for
/// every method of the class of that name, which says what its table gives, and
/// a line for each of them that was skipped.
pub proof fn law_rules_document(
    x: MethodsView,
    fqn: Seq<char>,
    file: Seq<char>,
    text: Seq<char>,
    d: MethodView,
    p: (Seq<char>, Seq<char>),
)
    requires
        is_rules_document(x, fqn, file, text),
    ensures
        x.methods.contains(d) && (full_name(d) == fqn || d.class_fqn == fqn) ==> exists|
            r: Result<CompressedTable, Error>,
        | #[trigger] is_answer(d.table, r) && holds(text, section_text(d, file, r)),
        x.skipped.contains(p) && is_skipped(fqn, p) ==> holds(text, skip_text(p)),
{
    let chosen = selected(x.methods, fqn);
    let left_out = skipped_lines(x.skipped, fqn);
    if x.methods.contains(d) && (full_name(d) == fqn || d.class_fqn == fqn) {
        lemma_selected_contains(x.methods, fqn, d);
        let i = choose|i: int| 0 <= i < chosen.len() && chosen[i] == d;
        let sections = choose|sections: Seq<Seq<char>>| #[trigger]
            are_sections(chosen, file, sections) && text == concat(sections) + concat(left_out);
        assert(is_section(chosen[i], file, sections[i]));
        let r = choose|r: Result<CompressedTable, Error>| #[trigger]
            is_answer(d.table, r) && sections[i] == section_text(d, file, r);
        lemma_holds_self(sections[i]);
        lemma_concat_holds(sections, i, sections[i]);
        lemma_joined(concat(sections), concat(left_out), sections[i]);
    }
    if x.skipped.contains(p) && is_skipped(fqn, p) {
        lemma_skipped(x.skipped, fqn, p);
        let i = choose|i: int| 0 <= i < left_out.len() && left_out[i] == skip_text(p);
        let sections = choose|sections: Seq<Seq<char>>| #[trigger]
            are_sections(chosen, file, sections) && text == concat(sections) + concat(left_out);
        lemma_holds_self(left_out[i]);
        lemma_concat_holds(left_out, i, left_out[i]);
        lemma_behind(concat(sections), concat(left_out), left_out[i]);
    }
}

proof fn lemma_joined(a: Seq<char>, b: Seq<char>, part: Seq<char>)
    requires
        holds(a, part),
    ensures
        holds(a + b, part),
{
    let e = Seq::<char>::empty();
    lemma_holds_inside(e, a, b, part);
    assert(e + a + b =~= a + b);
}

proof fn lemma_behind(a: Seq<char>, b: Seq<char>, part: Seq<char>)
    requires
        holds(b, part),
    ensures
        holds(a + b, part),
{
    let e = Seq::<char>::empty();
    lemma_holds_inside(a, b, e, part);
    assert(a + b + e =~= a + b);
}

/// A section names its method and where it stands, warns where the table is
/// incomplete, and says how many paths became how many rules.
pub proof fn law_section_text(d: MethodView, file: Seq<char>, r: Result<CompressedTable, Error>)
    ensures
        begins(
            section_text(d, file, r),
            "## "@ + full_name(d) + " ("@ + file + ":"@ + decimal_text(d.start_line as nat) + ")\n\n"@,
        ),
        d.incomplete ==> holds(
            section_text(d, file, r),
            "> ⚠ incomplete: the body contains unmodeled exits (loop/switch/try); outcomes inside those are not in the table\n\n"@,
        ),
        r matches Ok(c) ==> holds(
            section_text(d, file, r),
            decimal_text(d.table.rows.len()) + " observed paths compressed to "@ + decimal_text(c.rules@.len())
                + " rules.\n\n"@,
        ),
{
    let head = "## "@ + full_name(d) + " ("@ + file + ":"@ + decimal_text(d.start_line as nat) + ")\n\n"@;
    let mark = if d.incomplete {
        "> ⚠ incomplete: the body contains unmodeled exits (loop/switch/try); outcomes inside those are not in the table\n\n"@
    } else {
        Seq::empty()
    };
    let all = section_text(d, file, r);
    assert(all == head + mark + rules_text(d, r));
    assert(all.subrange(0, head.len() as int) =~= head);
    lemma_holds_self(mark);
    lemma_holds_inside(head, mark, rules_text(d, r), mark);
    if let Ok(c) = r {
        let first = decimal_text(d.table.rows.len()) + " observed paths compressed to "@ + decimal_text(c.rules@.len())
            + " rules.\n\n"@;
        let rest = crate::logic::render::markdown(
            crate::text::texts(c.variables@),
            entries(c.rules@),
            crate::text::texts(c.dead_variables@),
        ) + "\n"@;
        lemma_holds_self(first);
        lemma_joined(first, rest, first);
        assert(first + rest =~= rules_text(d, r));
        lemma_behind(head + mark, rules_text(d, r), first);
    }
}

/// The methods that are reported are those whose names hold the filter.
pub proof fn law_passing(methods: Seq<MethodView>, filter: Option<Seq<char>>)
    ensures
        passing(methods, filter) == methods.filter(
            |d: MethodView| filter matches Some(f) ==> holds(full_name(d), f),
        ),
    decreases methods.len(),
{
    reveal(Seq::filter);
    if methods.len() > 0 {
        law_passing(methods.drop_last(), filter);
        if let Some(f) = filter {
            lemma_find(full_name(methods.last()), f, 0);
        }
    }
}

/// A report ends with what was skipped and why, and says so where nothing
/// matched.
pub proof fn law_report_end(skipped: Seq<(Seq<char>, Seq<char>)>, found: bool, i: int)
    ensures
        0 <= i < skipped.len() ==> holds(
            report_end(skipped, found),
            "- "@ + skipped[i].0 + ": "@ + skipped[i].1 + "\n"@,
        ),
        !found ==> holds(report_end(skipped, found), "(no branching methods matched)\n"@),
{
    let lines = skipped.map_values(|p: (Seq<char>, Seq<char>)| skip_line(p));
    let first = if skipped.len() == 0 {
        Seq::empty()
    } else {
        "---\nSkipped methods:\n"@ + concat(lines)
    };
    let last = if found {
        Seq::empty()
    } else {
        "(no branching methods matched)\n"@
    };
    assert(report_end(skipped, found) == first + last);
    if 0 <= i < skipped.len() {
        let text = "- "@ + skipped[i].0 + ": "@ + skipped[i].1 + "\n"@;
        assert(lines[i] == text);
        lemma_holds_self(text);
        lemma_concat_holds(lines, i, text);
        lemma_behind("---\nSkipped methods:\n"@, concat(lines), text);
        lemma_joined(first, last, text);
    }
    lemma_holds_self(last);
    lemma_behind(first, last, last);
}

/// A trace document tells every step that was executed, every variable with its
/// value, every condition that holds, and how the path stands.
pub proof fn law_trace_document(
    fqn: Seq<char>,
    file: Seq<char>,
    line: u32,
    choices: Seq<usize>,
    r: TraceResult,
    i: int,
)
    ensures
        0 <= i < r.executed@.len() ==> holds(
            trace_document(fqn, file, line, choices, r),
            "- L"@ + decimal_text(r.executed@[i].line as nat) + "  "@ + r.executed@[i].text@ + "\n"@,
        ),
        0 <= i < r.variables@.len() ==> holds(
            trace_document(fqn, file, line, choices, r),
            r.variables@[i].0@ + " = "@ + r.variables@[i].1@,
        ),
        0 <= i < r.context_rules@.len() ==> holds(
            trace_document(fqn, file, line, choices, r),
            r.context_rules@[i]@,
        ),
        r.status matches TraceStatus::Terminated { outcome } ==> holds(
            trace_document(fqn, file, line, choices, r),
            "Terminated → "@ + outcome@ + "\n"@,
        ),
{
    let n1 = or_note("Choices replayed: "@ + numbers_text(choices) + "\n\n"@, choices.len() == 0, Seq::empty());
    let steps = r.executed@.map_values(|s: TraceStep| step_line(s));
    let n2 = or_note(
        concat(steps),
        r.executed@.len() == 0,
        "(nothing — already at a branch or the start)\n"@,
    );
    let stack = joined(texts(r.call_stack@), " › "@);
    let values = variable_texts(pairs(r.variables@));
    let n3 = or_note(
        "- Variables: "@ + joined(values, ", "@) + "\n"@,
        r.variables@.len() == 0,
        "- Variables: (none)\n"@,
    );
    let rules = texts(r.context_rules@);
    let n4 = or_note(
        "- Context Rules: "@ + joined(rules, " ∧ "@) + "\n"@,
        r.context_rules@.len() == 0,
        "- Context Rules: (none — no branch taken)\n"@,
    );
    let s = status_text(r.status);
    let a1 = "# Debug trace: "@ + fqn + " ("@ + file + ":"@ + decimal_text(line as nat) + ")\n\n"@ + n1
        + "## Executed\n"@;
    let a2 = a1 + n2;
    let a5 = a2 + "\n## State\n- Call stack: "@ + stack + "\n"@;
    let a6 = a5 + n3;
    let a7 = a6 + n4;
    let all = trace_document(fqn, file, line, choices, r);
    let n5 = or_note(
        "\n> ⚠ incomplete: this path stepped over an unmodeled construct (switch/try) that can itself return/throw — the outcome below may not be the method's real behavior on this path.\n"@,
        !r.incomplete,
        Seq::empty(),
    );
    let a8 = a7 + n5;
    let a9 = a8 + "\n## Status\n"@;
    assert(all == a9 + s);
    if 0 <= i < r.executed@.len() {
        let text = "- L"@ + decimal_text(r.executed@[i].line as nat) + "  "@ + r.executed@[i].text@ + "\n"@;
        assert(steps[i] == text);
        lemma_holds_self(text);
        lemma_concat_holds(steps, i, text);
        lemma_behind(a1, n2, text);
        lemma_joined(a2, "\n## State\n- Call stack: "@, text);
        lemma_joined(a2 + "\n## State\n- Call stack: "@, stack, text);
        lemma_joined(a2 + "\n## State\n- Call stack: "@ + stack, "\n"@, text);
        lemma_joined(a5, n3, text);
        lemma_joined(a6, n4, text);
        lemma_joined(a7, n5, text);
        lemma_joined(a8, "\n## Status\n"@, text);
        lemma_joined(a9, s, text);
    }
    if 0 <= i < r.variables@.len() {
        let text = r.variables@[i].0@ + " = "@ + r.variables@[i].1@;
        assert(values[i] == text);
        law_joined_holds(values, ", "@, i);
        lemma_holds_inside("- Variables: "@, joined(values, ", "@), "\n"@, text);
        lemma_behind(a5, n3, text);
        lemma_joined(a6, n4, text);
        lemma_joined(a7, n5, text);
        lemma_joined(a8, "\n## Status\n"@, text);
        lemma_joined(a9, s, text);
    }
    if 0 <= i < r.context_rules@.len() {
        let text = r.context_rules@[i]@;
        assert(rules[i] == text);
        law_joined_holds(rules, " ∧ "@, i);
        lemma_holds_inside("- Context Rules: "@, joined(rules, " ∧ "@), "\n"@, text);
        lemma_behind(a6, n4, text);
        lemma_joined(a7, n5, text);
        lemma_joined(a8, "\n## Status\n"@, text);
        lemma_joined(a9, s, text);
    }
    lemma_holds_self(s);
    lemma_behind(a9, s, s);
}

} // verus!
