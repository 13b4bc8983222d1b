//! The report on the rules of a code base.

use vstd::prelude::*;

use crate::lift::decision_extractor::{qualified, DecisionExtraction, MethodDecision, MethodView};
use crate::lift::symbolic::pairs;
use crate::lift::tag_extractor::{DecisionView, TagExtraction};
use crate::lines::opt_text;
use crate::logic::compress::{compress, consistent, entries, is_answer};
use crate::logic::render::{error_text, markdown};
use crate::logic::table::{CompressedTable, DecisionTable, Error, TableView, MAX_VARIABLES};
use crate::text::{chars_of, concat, decimal, decimal_text, find_from, has, lemma_concat_push, texts};

verus! {

/// How the rules of a table are told.
pub open spec fn rules_part(r: Result<CompressedTable, Error>, note: Seq<char>) -> Seq<char> {
    match r {
        Ok(c) => note + "\n"@ + markdown(texts(c.variables@), entries(c.rules@), texts(c.dead_variables@)) + "\n"@,
        Err(e) => "\n> ✗ not compressible: "@ + error_text(e) + "\n\n"@,
    }
}

pub open spec fn method_note(incomplete: bool) -> Seq<char> {
    if incomplete {
        "\n> ⚠ incomplete: body contains unmodeled exits (loop/switch/try)\n"@
    } else {
        Seq::empty()
    }
}

pub open spec fn screen_note(incomplete: bool) -> Seq<char> {
    if incomplete {
        "\n> ⚠ incomplete: the file also contains scriptlet conditionals (<% if %>) not in this table\n"@
    } else {
        Seq::empty()
    }
}

pub open spec fn method_head(d: MethodView, path: Seq<char>) -> Seq<char> {
    "## "@ + qualified(d.class_fqn, d.method_name) + " ("@ + path + ":"@ + decimal_text(d.start_line as nat) + ")\n"@
}

pub open spec fn screen_head(d: DecisionView, path: Seq<char>) -> Seq<char> {
    "## "@ + path + ":"@ + decimal_text(d.start_line) + "\n"@
}

/// A text reports a table under a head.
pub open spec fn is_report(t: TableView, head: Seq<char>, note: Seq<char>, text: Seq<char>) -> bool {
    exists|r: Result<CompressedTable, Error>| #[trigger] is_answer(t, r) && text == head + rules_part(r, note)
}

/// The rules of a table can be told.
pub open spec fn has_rules(t: TableView) -> bool {
    t.rows.len() > 0 && t.variables.len() <= MAX_VARIABLES && consistent(t)
}

pub open spec fn passes(filter: Option<Seq<char>>, name: Seq<char>) -> bool {
    match filter {
        Some(f) => has(name, f),
        None => true,
    }
}

/// The methods that pass a filter.
pub open spec fn passing(methods: Seq<MethodView>, filter: Option<Seq<char>>) -> Seq<MethodView>
    decreases methods.len(),
{
    if methods.len() == 0 {
        Seq::empty()
    } else {
        let before = passing(methods.drop_last(), filter);
        let d = methods.last();
        if passes(filter, qualified(d.class_fqn, d.method_name)) {
            before.push(d)
        } else {
            before
        }
    }
}

pub open spec fn some_method_rules(methods: Seq<MethodView>) -> bool {
    exists|i: int| 0 <= i < methods.len() && has_rules((#[trigger] methods[i]).table)
}

pub open spec fn some_screen_rules(clusters: Seq<DecisionView>) -> bool {
    exists|i: int| 0 <= i < clusters.len() && has_rules((#[trigger] clusters[i]).table)
}

pub open spec fn method_reports(chosen: Seq<MethodView>, path: Seq<char>, parts: Seq<Seq<char>>) -> bool {
    &&& parts.len() == chosen.len()
    &&& forall|i: int|
        0 <= i < chosen.len() ==> is_report(
            chosen[i].table,
            method_head(chosen[i], path),
            method_note(chosen[i].incomplete),
            #[trigger] parts[i],
        )
}

pub open spec fn screen_reports(clusters: Seq<DecisionView>, path: Seq<char>, parts: Seq<Seq<char>>) -> bool {
    &&& parts.len() == clusters.len()
    &&& forall|i: int|
        0 <= i < clusters.len() ==> is_report(
            clusters[i].table,
            screen_head(clusters[i], path),
            screen_note(clusters[i].incomplete),
            #[trigger] parts[i],
        )
}

/// Clusters that were left out, with the path of their file.
pub open spec fn located(path: Seq<char>, skipped: Seq<(Seq<char>, Seq<char>)>) -> Seq<(Seq<char>, Seq<char>)> {
    skipped.map_values(|p: (Seq<char>, Seq<char>)| (path + " "@ + p.0, p.1))
}

pub open spec fn skip_line(p: (Seq<char>, Seq<char>)) -> Seq<char> {
    "- "@ + p.0 + ": "@ + p.1 + "\n"@
}

/// What the report ends with.
pub open spec fn report_end(skipped: Seq<(Seq<char>, Seq<char>)>, found: bool) -> Seq<char> {
    (if skipped.len() == 0 {
        Seq::empty()
    } else {
        "---\nSkipped methods:\n"@ + concat(skipped.map_values(|p: (Seq<char>, Seq<char>)| skip_line(p)))
    }) + if found {
        Seq::empty()
    } else {
        "(no branching methods matched)\n"@
    }
}

/// A report in the making: whether any rules were told, and what was left out.
#[derive(Debug)]
pub struct RulesReport {
    pub found: bool,
    pub skipped: Vec<(String, String)>,
}

fn write_table(table: &DecisionTable, note: &str) -> (r: (String, bool))
    requires
        table@.wf(),
    ensures
        is_report(table@, Seq::empty(), note@, r.0@),
        r.1 == has_rules(table@),
{
    let answer = compress(table);
    let mut out = String::new();
    match &answer {
        Ok(c) => {
            out.append(note);
            out.append("\n");
            out.append(c.to_markdown().as_str());
            out.append("\n");
        },
        Err(e) => {
            out.append("\n> ✗ not compressible: ");
            out.append(e.message().as_str());
            out.append("\n\n");
        },
    }
    assert(out@ =~= Seq::empty() + rules_part(answer, note@));
    assert(is_answer(table@, answer));
    (out, answer.is_ok())
}

proof fn lemma_report_under(t: TableView, head: Seq<char>, note: Seq<char>, text: Seq<char>)
    requires
        is_report(t, Seq::empty(), note, text),
    ensures
        is_report(t, head, note, head + text),
{
    let r = choose|r: Result<CompressedTable, Error>| #[trigger]
        is_answer(t, r) && text == Seq::<char>::empty() + rules_part(r, note);
    assert(is_answer(t, r) && head + text =~= head + rules_part(r, note));
}

fn does_pass(filter: &Option<String>, name: &str) -> (r: bool)
    ensures
        r == passes(opt_text(*filter), name@),
{
    match filter {
        Some(f) => find_from(chars_of(name).as_slice(), f.as_str(), 0).is_some(),
        None => true,
    }
}

impl RulesReport {
    pub fn new() -> (r: Self)
        ensures
            !r.found,
            r.skipped@.len() == 0,
    {
        RulesReport { found: false, skipped: Vec::new() }
    }

    /// Reports the methods of a source whose names hold the filter.
    pub fn add_methods(&mut self, x: DecisionExtraction, path: &str, filter: &Option<String>) -> (r: String)
        requires
            forall|k: int| 0 <= k < x.methods@.len() ==> (#[trigger] x.methods@[k])@.table.wf(),
        ensures
            pairs(final(self).skipped@) == pairs(old(self).skipped@) + x@.skipped,
            final(self).found == (old(self).found || some_method_rules(passing(x@.methods, opt_text(*filter)))),
            exists|parts: Seq<Seq<char>>| #[trigger]
                method_reports(passing(x@.methods, opt_text(*filter)), path@, parts) && r@ == concat(parts),
    {
        let ghost methods = x@.methods;
        let ghost want = opt_text(*filter);
        let ghost skipped = x.skipped@;
        let ghost had = self.skipped@;
        let ghost found_before = self.found;
        let mut more = x.skipped;
        self.skipped.append(&mut more);
        assert(self.skipped@ =~= had + skipped);
        assert(pairs(self.skipped@) =~= pairs(had) + pairs(skipped));
        let mut out = String::new();
        let ghost mut parts: Seq<Seq<char>> = Seq::empty();
        let mut i: usize = 0;
        assert(out@ =~= concat(parts));
        assert(methods.take(0) =~= Seq::empty());
        while i < x.methods.len()
            invariant
                i <= x.methods@.len(),
                methods == x.methods@.map_values(|m: MethodDecision| m@),
                want == opt_text(*filter),
                forall|k: int| 0 <= k < x.methods@.len() ==> (#[trigger] x.methods@[k])@.table.wf(),
                pairs(self.skipped@) == pairs(had) + pairs(skipped),
                self.found == (found_before || some_method_rules(passing(methods.take(i as int), want))),
                method_reports(passing(methods.take(i as int), want), path@, parts),
                out@ == concat(parts),
            decreases x.methods.len() - i,
        {
            let d = &x.methods[i];
            assert(methods[i as int] == d@);
            assert(methods.take(i + 1).drop_last() =~= methods.take(i as int));
            let fqn = d.fqn();
            let ghost chosen = passing(methods.take(i as int), want);
            if does_pass(filter, fqn.as_str()) {
                let mut head = "## ".to_owned();
                head.append(fqn.as_str());
                head.append(" (");
                head.append(path);
                head.append(":");
                head.append(decimal(d.start_line as u128).as_str());
                head.append(")\n");
                let note = if d.incomplete {
                    "\n> ⚠ incomplete: body contains unmodeled exits (loop/switch/try)\n"
                } else {
                    ""
                };
                proof {
                    reveal_strlit("");
                    assert(note@ =~= method_note(d.incomplete));
                }
                let (body, told) = write_table(&d.table, note);
                proof {
                    lemma_report_under(d@.table, head@, note@, body@);
                    let part = head@ + body@;
                    lemma_concat_push(parts, part);
                    assert(chosen.push(d@).drop_last() =~= chosen);
                    lemma_some_method(chosen, d@);
                    parts = parts.push(part);
                }
                out.append(head.as_str());
                out.append(body.as_str());
                assert(out@ =~= concat(parts));
                if told {
                    self.found = true;
                }
            }
            i = i + 1;
        }
        assert(methods.take(i as int) =~= methods);
        out
    }

    /// Reports the display logic of a screen whose path holds the filter.
    pub fn add_screen(&mut self, x: TagExtraction, path: &str, filter: &Option<String>) -> (r: String)
        requires
            forall|k: int| 0 <= k < x.clusters@.len() ==> (#[trigger] x.clusters@[k]).table@.wf(),
        ensures
            !passes(opt_text(*filter), path@) ==> *final(self) == *old(self) && r@.len() == 0,
            passes(opt_text(*filter), path@) ==> {
                &&& pairs(final(self).skipped@) == pairs(old(self).skipped@) + located(path@, x@.skipped)
                &&& final(self).found == (old(self).found || some_screen_rules(x@.clusters))
                &&& exists|parts: Seq<Seq<char>>| #[trigger]
                    screen_reports(x@.clusters, path@, parts) && r@ == concat(parts)
            },
    {
        let mut out = String::new();
        assert(out@ =~= Seq::empty());
        if !does_pass(filter, path) {
            return out;
        }
        let ghost had = pairs(self.skipped@);
        let ghost found_before = self.found;
        let ghost all = located(path@, x@.skipped);
        let mut k: usize = 0;
        assert(had + all.take(0) =~= had);
        while k < x.skipped.len()
            invariant
                k <= x.skipped@.len(),
                all == located(path@, x@.skipped),
                all.len() == x.skipped@.len(),
                self.found == found_before,
                pairs(self.skipped@) == had + all.take(k as int),
            decreases x.skipped.len() - k,
        {
            let p = &x.skipped[k];
            let mut place = path.to_owned();
            place.append(" ");
            place.append(p.0.as_str());
            assert(x@.skipped[k as int] == (p.0@, p.1@));
            let ghost item = (place@, p.1@);
            let ghost before = pairs(self.skipped@);
            self.skipped.push((place, p.1.clone()));
            assert(pairs(self.skipped@) =~= before.push(item));
            k = k + 1;
            assert(pairs(self.skipped@) =~= had + all.take(k as int));
        }
        assert(all.take(k as int) =~= all);
        let ghost clusters = x@.clusters;
        let ghost mut parts: Seq<Seq<char>> = Seq::empty();
        let mut i: usize = 0;
        assert(out@ =~= concat(parts));
        assert(clusters.take(0) =~= Seq::empty());
        while i < x.clusters.len()
            invariant
                i <= x.clusters@.len(),
                clusters == x@.clusters,
                clusters.len() == x.clusters@.len(),
                forall|k: int| 0 <= k < x.clusters@.len() ==> (#[trigger] x.clusters@[k]).table@.wf(),
                pairs(self.skipped@) == had + all,
                self.found == (found_before || some_screen_rules(clusters.take(i as int))),
                screen_reports(clusters.take(i as int), path@, parts),
                out@ == concat(parts),
            decreases x.clusters.len() - i,
        {
            let d = &x.clusters[i];
            assert(clusters[i as int] == d@);
            let mut head = "## ".to_owned();
            head.append(path);
            head.append(":");
            head.append(decimal(d.start_line as u128).as_str());
            head.append("\n");
            let note = if d.incomplete {
                "\n> ⚠ incomplete: the file also contains scriptlet conditionals (<% if %>) not in this table\n"
            } else {
                ""
            };
            proof {
                reveal_strlit("");
                assert(note@ =~= screen_note(d.incomplete));
            }
            let (body, told) = write_table(&d.table, note);
            proof {
                lemma_report_under(d@.table, head@, note@, body@);
                let part = head@ + body@;
                lemma_concat_push(parts, part);
                let now = clusters.take(i as int);
                assert(clusters.take(i + 1) =~= now.push(d@));
                lemma_some_screen(now, d@);
                parts = parts.push(part);
            }
            out.append(head.as_str());
            out.append(body.as_str());
            assert(out@ =~= concat(parts));
            if told {
                self.found = true;
            }
            i = i + 1;
        }
        assert(clusters.take(i as int) =~= clusters);
        out
    }

    /// Ends the report.
    pub fn finish(&self) -> (r: String)
        ensures
            r@ == report_end(pairs(self.skipped@), self.found),
    {
        let ghost all = pairs(self.skipped@);
        let ghost lines = all.map_values(|p: (Seq<char>, Seq<char>)| skip_line(p));
        let mut out = String::new();
        assert(out@ =~= Seq::empty());
        if self.skipped.len() > 0 {
            out.append("---\nSkipped methods:\n");
            let ghost head = out@;
            let mut i: usize = 0;
            assert(out@ =~= head + concat(lines.take(0)));
            while i < self.skipped.len()
                invariant
                    i <= self.skipped@.len(),
                    all == pairs(self.skipped@),
                    lines == all.map_values(|p: (Seq<char>, Seq<char>)| skip_line(p)),
                    out@ == head + concat(lines.take(i as int)),
                decreases self.skipped.len() - i,
            {
                let p = &self.skipped[i];
                assert(all[i as int] == (p.0@, p.1@));
                let mut line = "- ".to_owned();
                line.append(p.0.as_str());
                line.append(": ");
                line.append(p.1.as_str());
                line.append("\n");
                proof {
                    lemma_concat_push(lines.take(i as int), line@);
                    assert(lines.take(i + 1) =~= lines.take(i as int).push(line@));
                }
                out.append(line.as_str());
                i = i + 1;
            }
            assert(lines.take(i as int) =~= lines);
            assert(head =~= "---\nSkipped methods:\n"@);
        }
        let ghost middle = out@;
        if !self.found {
            out.append("(no branching methods matched)\n");
        } else {
            assert(out@ =~= middle + Seq::empty());
        }
        out
    }
}

proof fn lemma_some_method(before: Seq<MethodView>, d: MethodView)
    ensures
        some_method_rules(before.push(d)) == (some_method_rules(before) || has_rules(d.table)),
{
    let all = before.push(d);
    assert(all[before.len() as int] == d);
    if some_method_rules(before) {
        let i = choose|i: int| 0 <= i < before.len() && has_rules((#[trigger] before[i]).table);
        assert(all[i] == before[i]);
    }
    if some_method_rules(all) {
        let i = choose|i: int| 0 <= i < all.len() && has_rules((#[trigger] all[i]).table);
        if i < before.len() {
            assert(before[i] == all[i]);
        }
    }
}

proof fn lemma_some_screen(before: Seq<DecisionView>, d: DecisionView)
    ensures
        some_screen_rules(before.push(d)) == (some_screen_rules(before) || has_rules(d.table)),
{
    let all = before.push(d);
    assert(all[before.len() as int] == d);
    if some_screen_rules(before) {
        let i = choose|i: int| 0 <= i < before.len() && has_rules((#[trigger] before[i]).table);
        assert(all[i] == before[i]);
    }
    if some_screen_rules(all) {
        let i = choose|i: int| 0 <= i < all.len() && has_rules((#[trigger] all[i]).table);
        if i < before.len() {
            assert(before[i] == all[i]);
        }
    }
}

} // verus!
