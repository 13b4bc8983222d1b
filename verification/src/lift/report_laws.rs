//! What goes wrong in a lift is told, and what is rendered says it all.

use vstd::prelude::*;

use crate::lift::debug::{body_at, declares_at};
use crate::lift::lifter::{
    entity_pass, known_after, lifted, no_relations, parsed, relation_pass, unresolved_uses, unresolved_warning,
    DiagnosticSeverity, DiagnosticView, SourceView, UnresolvedUse,
};
use crate::lift::relation_extractor::{relations_in, Known, OpenRelation};
use crate::lift::syntax::{child_in_role, node_end, NodeView};
use crate::logic::render::{cell, header_line, live_positions, markdown, rule_line, separators, tri_text};
use crate::logic::table::{Entry, Tri};
use crate::model::relation::relation_name;
use crate::seqs::{lemma_plus_contains, lemma_push_contains};
use crate::text::{concat, joined, occurs_at};
use crate::text_laws::{holds, law_joined_holds, lemma_holds_inside, lemma_holds_self};

verus! {

proof fn lemma_entity_diagnostics(sources: Seq<SourceView>, space: Seq<char>, n: int, s: int, e: Seq<char>)
    requires
        0 <= s < n <= sources.len(),
        parsed(sources[s]) == Err::<Seq<NodeView>, Seq<char>>(e),
    ensures
        entity_pass(sources, space, n).diagnostics.contains(
            DiagnosticView {
                file: sources[s].path,
                message: "Parse error: "@ + e,
                severity: DiagnosticSeverity::Error,
            },
        ),
    decreases n,
{
    let before = entity_pass(sources, space, n - 1);
    let all = entity_pass(sources, space, n);
    if all.diagnostics.len() > before.diagnostics.len() {
        lemma_push_contains(before.diagnostics, all.diagnostics.last());
        assert(all.diagnostics =~= before.diagnostics.push(all.diagnostics.last()));
    }
    if s < n - 1 {
        lemma_entity_diagnostics(sources, space, n - 1, s, e);
    }
}

proof fn lemma_relation_diagnostics(sources: Seq<SourceView>, k: Known, start: int, n: int, s: int)
    requires
        0 <= s < n <= sources.len(),
    ensures
        ({
            let all = relation_pass(sources, k, start, n);
            match parsed(sources[s]) {
                Err(e) => all.diagnostics.contains(
                    DiagnosticView {
                        file: sources[s].path,
                        message: "Relation extraction error: "@ + e,
                        severity: DiagnosticSeverity::Error,
                    },
                ),
                Ok(t) => forall|u: OpenRelation| #[trigger]
                    relations_in(
                        t,
                        0,
                        t.len() as int,
                        Seq::empty(),
                        no_relations(relation_pass(sources, k, start, s).count),
                        Known { file: sources[s].rel_path, ..k },
                    ).unresolved.contains(u) ==> all.diagnostics.contains(warning(u, sources[s].path))
                        && all.uses.contains(use_of(u, sources[s].rel_path)),
            }
        }),
    decreases n,
{
    let before = relation_pass(sources, k, start, n - 1);
    let all = relation_pass(sources, k, start, n);
    let source = sources[n - 1];
    if s < n - 1 {
        lemma_relation_diagnostics(sources, k, start, n - 1, s);
    }
    match parsed(source) {
        Err(e) => {
            lemma_push_contains(before.diagnostics, all.diagnostics.last());
            assert(all.diagnostics =~= before.diagnostics.push(all.diagnostics.last()));
            assert(all.uses == before.uses);
        },
        Ok(t) => {
            let own = Known { file: source.rel_path, ..k };
            let f = relations_in(t, 0, t.len() as int, Seq::empty(), no_relations(before.count), own);
            let warnings = f.unresolved.map_values(|u: OpenRelation| unresolved_warning(u, source.path));
            let uses = f.unresolved.map_values(
                |u: OpenRelation| crate::lift::lifter::unresolved_use(u, source.rel_path),
            );
            lemma_plus_contains(before.diagnostics, warnings);
            lemma_plus_contains(before.uses, uses);
            if s == n - 1 {
                assert forall|u: OpenRelation| #[trigger] f.unresolved.contains(u) implies all.diagnostics.contains(
                    warning(u, source.path),
                ) && all.uses.contains(use_of(u, source.rel_path)) by {
                    let i = choose|i: int| 0 <= i < f.unresolved.len() && f.unresolved[i] == u;
                    assert(warnings[i] == warning(u, source.path));
                    assert(uses[i] == use_of(u, source.rel_path));
                    assert(warnings.contains(warnings[i]));
                    assert(uses.contains(uses[i]));
                }
            }
        },
    }
}

/// What is told of the use of an unknown name.
pub open spec fn warning(u: OpenRelation, path: Seq<char>) -> DiagnosticView {
    DiagnosticView {
        file: path,
        message: "Unresolved "@ + relation_name(u.relation_type) + ": "@ + u.from_fqn + " → "@ + u.target_text,
        severity: DiagnosticSeverity::Warning,
    }
}

/// Where an unknown name is used.
pub open spec fn use_of(u: OpenRelation, file: Seq<char>) -> UnresolvedUse {
    UnresolvedUse { target_text: u.target_text, file, line: u.witness.start_line, column: u.witness.start_col }
}

/// A file that cannot be read is told, by both passes, with the reason.
pub proof fn law_unreadable_files(
    sources: Seq<SourceView>,
    space: Seq<char>,
    label: Seq<char>,
    resolved: Seq<(Seq<char>, Seq<char>)>,
    s: int,
    e: Seq<char>,
)
    requires
        0 <= s < sources.len(),
        parsed(sources[s]) == Err::<Seq<NodeView>, Seq<char>>(e),
    ensures
        lifted(sources, space, label, resolved).diagnostics.contains(
            DiagnosticView {
                file: sources[s].path,
                message: "Parse error: "@ + e,
                severity: DiagnosticSeverity::Error,
            },
        ),
        lifted(sources, space, label, resolved).diagnostics.contains(
            DiagnosticView {
                file: sources[s].path,
                message: "Relation extraction error: "@ + e,
                severity: DiagnosticSeverity::Error,
            },
        ),
{
    let n = sources.len() as int;
    let first = entity_pass(sources, space, n);
    let k = known_after(first, space, resolved);
    let second = relation_pass(sources, k, first.count, n);
    lemma_entity_diagnostics(sources, space, n, s, e);
    lemma_relation_diagnostics(sources, k, first.count, n, s);
    lemma_plus_contains(first.diagnostics, second.diagnostics);
}

/// The uses of names that a file leaves open are asked for, each with its place.
pub proof fn law_open_uses(sources: Seq<SourceView>, space: Seq<char>, s: int, t: Seq<NodeView>, u: OpenRelation)
    requires
        0 <= s < sources.len(),
        parsed(sources[s]) == Ok::<Seq<NodeView>, Seq<char>>(t),
        ({
            let first = entity_pass(sources, space, sources.len() as int);
            let k = known_after(first, space, Seq::empty());
            relations_in(
                t,
                0,
                t.len() as int,
                Seq::empty(),
                no_relations(relation_pass(sources, k, first.count, s).count),
                Known { file: sources[s].rel_path, ..k },
            ).unresolved.contains(u)
        }),
    ensures
        unresolved_uses(sources, space).contains(use_of(u, sources[s].rel_path)),
{
    let n = sources.len() as int;
    let first = entity_pass(sources, space, n);
    let k = known_after(first, space, Seq::empty());
    lemma_relation_diagnostics(sources, k, first.count, n, s);
}

pub proof fn lemma_concat_holds(parts: Seq<Seq<char>>, i: int, text: Seq<char>)
    requires
        0 <= i < parts.len(),
        holds(parts[i], text),
    ensures
        holds(concat(parts), text),
    decreases parts.len(),
{
    let front = concat(parts.drop_last());
    let e = Seq::<char>::empty();
    if i < parts.len() - 1 {
        lemma_concat_holds(parts.drop_last(), i, text);
        lemma_holds_inside(e, front, parts.last(), text);
        assert(e + front + parts.last() =~= concat(parts));
    } else {
        lemma_holds_inside(front, parts.last(), e, text);
        assert(front + parts.last() + e =~= concat(parts));
    }
}

proof fn lemma_live(variables: Seq<Seq<char>>, dead: Seq<Seq<char>>, k: nat, i: int)
    requires
        k <= variables.len(),
        0 <= i < k,
        !dead.contains(variables[i]),
    ensures
        live_positions(variables, dead, k).contains(i),
    decreases k,
{
    let before = live_positions(variables, dead, (k - 1) as nat);
    lemma_push_contains(before, k - 1);
    if i < k - 1 {
        lemma_live(variables, dead, (k - 1) as nat, i);
    }
}

/// The table before what is said of dead variables.
spec fn rendered_table(header: Seq<char>, line: Seq<char>, rules: Seq<char>) -> Seq<char> {
    "|"@ + header + " outcome |\n|"@ + line + "---|\n"@ + rules
}

spec fn rendered_tail(dead: Seq<Seq<char>>) -> Seq<char> {
    "\nDead variables (no effect on any observed outcome): "@ + joined(dead, ", "@) + "\n"@
}

proof fn lemma_rendered(variables: Seq<Seq<char>>, rules: Seq<Entry>, dead: Seq<Seq<char>>)
    ensures
        ({
            let live = live_positions(variables, dead, variables.len());
            let table = rendered_table(
                header_line(variables, live),
                separators(live),
                concat(rules.map_values(|x: Entry| rule_line(x, live))),
            );
            &&& dead.len() == 0 ==> markdown(variables, rules, dead) == table
            &&& dead.len() > 0 ==> markdown(variables, rules, dead) == table + rendered_tail(dead)
        }),
{
    let live = live_positions(variables, dead, variables.len());
    let table = rendered_table(
        header_line(variables, live),
        separators(live),
        concat(rules.map_values(|x: Entry| rule_line(x, live))),
    );
    if dead.len() > 0 {
        assert(markdown(variables, rules, dead) =~= table + rendered_tail(dead));
    }
}

/// The rendered table names every condition that matters.
pub proof fn law_rendered_conditions(variables: Seq<Seq<char>>, rules: Seq<Entry>, dead: Seq<Seq<char>>, i: int)
    requires
        0 <= i < variables.len(),
        !dead.contains(variables[i]),
    ensures
        holds(markdown(variables, rules, dead), " "@ + variables[i] + " |"@),
{
    let live = live_positions(variables, dead, variables.len());
    let header = header_line(variables, live);
    let line = separators(live);
    let body = concat(rules.map_values(|x: Entry| rule_line(x, live)));
    let table = rendered_table(header, line, body);
    let text = " "@ + variables[i] + " |"@;
    lemma_live(variables, dead, variables.len(), i);
    let j = choose|j: int| 0 <= j < live.len() && live[j] == i;
    let cells = live.map_values(|k: int| cell(variables[k]));
    assert(cells[j] == text);
    lemma_holds_self(text);
    lemma_concat_holds(cells, j, text);
    let rest = " outcome |\n|"@ + line + "---|\n"@ + body;
    lemma_holds_inside("|"@, header, rest, text);
    assert("|"@ + header + rest =~= table);
    lemma_rendered(variables, rules, dead);
    lemma_in_front(table, rendered_tail(dead), markdown(variables, rules, dead), dead, text);
}

proof fn lemma_ends_hold(front: Seq<char>, x: Seq<char>, y: Seq<char>, z: Seq<char>)
    ensures
        holds(front + x + y + z, x + y + z),
{
    let text = x + y + z;
    let all = front + x + y + z;
    let n = front.len() as int;
    assert(all.len() == n + text.len());
    let part = all.subrange(n, n + text.len());
    assert forall|k: int| 0 <= k < text.len() implies #[trigger] part[k] == text[k] by {
        assert(part[k] == all[n + k]);
    }
    assert(part =~= text);
    assert(occurs_at(all, text, n));
}

proof fn lemma_row_outcome(rule: Entry, live: Seq<int>)
    ensures
        holds(rule_line(rule, live), " "@ + rule.outcome + " |\n"@),
{
    let cells = concat(live.map_values(|k: int| cell(tri_text(rule.when[k]))));
    lemma_ends_hold("|"@ + cells, " "@, rule.outcome, " |\n"@);
}

/// The rendered table names the outcome of every rule.
pub proof fn law_rendered_outcomes(variables: Seq<Seq<char>>, rules: Seq<Entry>, dead: Seq<Seq<char>>, r: int)
    requires
        0 <= r < rules.len(),
    ensures
        holds(markdown(variables, rules, dead), " "@ + rules[r].outcome + " |\n"@),
{
    let live = live_positions(variables, dead, variables.len());
    let header = header_line(variables, live);
    let line = separators(live);
    let rows = rules.map_values(|x: Entry| rule_line(x, live));
    let table = rendered_table(header, line, concat(rows));
    let e = Seq::<char>::empty();
    let text = " "@ + rules[r].outcome + " |\n"@;
    lemma_row_outcome(rules[r], live);
    assert(rows[r] == rule_line(rules[r], live));
    lemma_concat_holds(rows, r, text);
    let start = "|"@ + header + " outcome |\n|"@ + line + "---|\n"@;
    lemma_holds_inside(start, concat(rows), e, text);
    assert(start + concat(rows) + e =~= table);
    lemma_rendered(variables, rules, dead);
    lemma_in_front(table, rendered_tail(dead), markdown(variables, rules, dead), dead, text);
}

/// The conditions that do not matter are named behind the table.
pub proof fn law_rendered_dead(variables: Seq<Seq<char>>, rules: Seq<Entry>, dead: Seq<Seq<char>>, d: int)
    requires
        0 <= d < dead.len(),
    ensures
        holds(markdown(variables, rules, dead), dead[d]),
{
    let live = live_positions(variables, dead, variables.len());
    let table = rendered_table(
        header_line(variables, live),
        separators(live),
        concat(rules.map_values(|x: Entry| rule_line(x, live))),
    );
    let tail = rendered_tail(dead);
    let e = Seq::<char>::empty();
    law_joined_holds(dead, ", "@, d);
    lemma_holds_inside(
        "\nDead variables (no effect on any observed outcome): "@,
        joined(dead, ", "@),
        "\n"@,
        dead[d],
    );
    lemma_rendered(variables, rules, dead);
    lemma_holds_inside(table, tail, e, dead[d]);
    assert(table + tail + e =~= table + tail);
}

proof fn lemma_in_front(
    table: Seq<char>,
    tail: Seq<char>,
    all: Seq<char>,
    dead: Seq<Seq<char>>,
    text: Seq<char>,
)
    requires
        holds(table, text),
        dead.len() == 0 ==> all == table,
        dead.len() > 0 ==> all == table + tail,
    ensures
        holds(all, text),
{
    let e = Seq::<char>::empty();
    if dead.len() > 0 {
        lemma_holds_inside(e, table, tail, text);
        assert(e + table + tail =~= all);
    }
}

/// A rule is rendered with what each condition must be: true, false, or either.
pub proof fn law_rendered_rule(rule: Entry, live: Seq<int>, j: int)
    requires
        0 <= j < live.len(),
    ensures
        holds(
            rule_line(rule, live),
            " "@ + (match rule.when[live[j]] {
                Tri::True => "T"@,
                Tri::False => "F"@,
                Tri::Any => "-"@,
            }) + " |"@,
        ),
{
    let text = " "@ + tri_text(rule.when[live[j]]) + " |"@;
    let cells = live.map_values(|k: int| cell(tri_text(rule.when[k])));
    assert(cells[j] == text);
    lemma_holds_self(text);
    lemma_concat_holds(cells, j, text);
    let rest = " "@ + rule.outcome + " |\n"@;
    lemma_holds_inside("|"@, concat(cells), rest, text);
    assert("|"@ + concat(cells) + rest =~= rule_line(rule, live));
}

/// A trace starts in the body of a method or constructor whose declaration
/// starts on the line.
pub proof fn law_trace_body(t: Seq<NodeView>, lo: int, hi: int, line: u32)
    requires
        0 <= lo,
        hi <= t.len(),
    ensures
        body_at(t, lo, hi, line) matches Some(body) ==> exists|p: int|
            lo <= p < hi && ((#[trigger] t[p]).kind == "method_declaration"@ || t[p].kind
                == "constructor_declaration"@) && t[p].start_row + 1 == line && child_in_role(
                t,
                p,
                node_end(t, p, hi),
                "body"@,
            ) == Some(body),
    decreases hi - lo,
{
    if lo < hi {
        if declares_at(t[lo], line) {
            let end = node_end(t, lo, hi);
            if child_in_role(t, lo, end, "body"@) is None && lo < end <= hi {
                law_trace_body(t, end, hi, line);
            } else {
                assert(t[lo].start_row + 1 == line);
            }
        } else {
            law_trace_body(t, lo + 1, hi, line);
        }
    }
}

} // verus!
