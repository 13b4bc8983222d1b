//! The minimized rules of a method or class as a document.

use vstd::prelude::*;

use crate::lift::decision_extractor::{
    qualified, tree_methods, DecisionExtraction, DecisionExtractor, MethodDecision, MethodView, MethodsView,
};
use crate::lift::syntax::{fits, java_nodes, source_fits};
use crate::lines::{begins, starts_with};
use crate::logic::compress::{compress, is_answer};
use crate::logic::render::{error_text, markdown};
use crate::logic::compress::entries;
use crate::logic::table::{CompressedTable, Error};
use crate::mcp::calls::{RpcError, RpcErrorView};
use crate::query::engine::{witnessed, QueryEngine};
use crate::text::{chars_of, concat, decimal, decimal_text, lemma_concat_push, same, texts};
use crate::text_map::lookup;

verus! {

/// A failure of a tool.
pub open spec fn tool_failure(message: Seq<char>) -> RpcErrorView {
    RpcErrorView { code: -32000, message }
}

pub fn fails(prefix: &str, reason: &str) -> (r: RpcError)
    ensures
        r@ == tool_failure(prefix@ + reason@),
{
    let mut message = prefix.to_owned();
    message.append(reason);
    RpcError { code: -32000, message }
}

pub open spec fn not_loaded(file: Seq<char>) -> Seq<char> {
    "Source for "@ + file
        + " is not loaded. Start the server with --source-root pointing at the Java source tree."@
}

/// Says that a source is not loaded.
pub fn source_missing(file: &str) -> (r: RpcError)
    ensures
        r@ == tool_failure(not_loaded(file@)),
{
    let mut message = "Source for ".to_owned();
    message.append(file);
    message.append(" is not loaded. Start the server with --source-root pointing at the Java source tree.");
    RpcError { code: -32000, message }
}

/// How a decision's rules are told.
pub open spec fn rules_text(d: MethodView, r: Result<CompressedTable, Error>) -> Seq<char> {
    match r {
        Ok(c) => decimal_text(d.table.rows.len()) + " observed paths compressed to "@ + decimal_text(c.rules@.len())
            + " rules.\n\n"@ + markdown(texts(c.variables@), entries(c.rules@), texts(c.dead_variables@)) + "\n"@,
        Err(e) => "> ✗ not compressible: "@ + error_text(e) + "\n\n"@,
    }
}

/// The section on a method.
pub open spec fn section_text(d: MethodView, file: Seq<char>, r: Result<CompressedTable, Error>) -> Seq<char> {
    "## "@ + qualified(d.class_fqn, d.method_name) + " ("@ + file + ":"@ + decimal_text(d.start_line as nat) + ")\n\n"@
        + if d.incomplete {
        "> ⚠ incomplete: the body contains unmodeled exits (loop/switch/try); outcomes inside those are not in the table\n\n"@
    } else {
        Seq::empty()
    } + rules_text(d, r)
}

/// A text is the section on a method, with its rules as compressing gives them.
pub open spec fn is_section(d: MethodView, file: Seq<char>, text: Seq<char>) -> bool {
    exists|r: Result<CompressedTable, Error>| #[trigger]
        is_answer(d.table, r) && text == section_text(d, file, r)
}

/// A method is asked for: by its own name, or by that of its class.
pub open spec fn is_selected(d: MethodView, fqn: Seq<char>) -> bool {
    qualified(d.class_fqn, d.method_name) == fqn || d.class_fqn == fqn
}

pub open spec fn selected(methods: Seq<MethodView>, fqn: Seq<char>) -> Seq<MethodView>
    decreases methods.len(),
{
    if methods.len() == 0 {
        Seq::empty()
    } else {
        let before = selected(methods.drop_last(), fqn);
        if is_selected(methods.last(), fqn) {
            before.push(methods.last())
        } else {
            before
        }
    }
}

/// The lines on methods that were left out.
pub open spec fn skipped_lines(skipped: Seq<(Seq<char>, Seq<char>)>, fqn: Seq<char>) -> Seq<Seq<char>>
    decreases skipped.len(),
{
    if skipped.len() == 0 {
        Seq::empty()
    } else {
        let before = skipped_lines(skipped.drop_last(), fqn);
        let (method, reason) = skipped.last();
        if method == fqn || begins(method, fqn + "."@) {
            before.push("- skipped "@ + method + ": "@ + reason + "\n"@)
        } else {
            before
        }
    }
}

/// A text is the document on the rules of a method or class.
pub open spec fn is_rules_document(x: MethodsView, fqn: Seq<char>, file: Seq<char>, text: Seq<char>) -> bool {
    let chosen = selected(x.methods, fqn);
    let left_out = skipped_lines(x.skipped, fqn);
    if chosen.len() == 0 && left_out.len() == 0 {
        text == fqn + " has no extractable branching logic (no if/else, or only unmodeled constructs)."@
    } else {
        exists|sections: Seq<Seq<char>>| #[trigger]
            are_sections(chosen, file, sections) && text == concat(sections) + concat(left_out)
    }
}

pub open spec fn are_sections(chosen: Seq<MethodView>, file: Seq<char>, sections: Seq<Seq<char>>) -> bool {
    &&& sections.len() == chosen.len()
    &&& forall|i: int| 0 <= i < chosen.len() ==> is_section(chosen[i], file, #[trigger] sections[i])
}

fn write_section(d: &MethodDecision, file: &str) -> (r: String)
    requires
        d@.table.wf(),
    ensures
        is_section(d@, file@, r@),
{
    let mut out = "## ".to_owned();
    out.append(d.fqn().as_str());
    out.append(" (");
    out.append(file);
    out.append(":");
    out.append(decimal(d.start_line as u128).as_str());
    out.append(")\n\n");
    if d.incomplete {
        out.append(
            "> ⚠ incomplete: the body contains unmodeled exits (loop/switch/try); outcomes inside those are not in the table\n\n",
        );
    }
    let ghost start = out@;
    let answer = compress(&d.table);
    match &answer {
        Ok(c) => {
            let rows: usize = d.table.rows().len();
            out.append(decimal(rows as u128).as_str());
            out.append(" observed paths compressed to ");
            out.append(decimal(c.rules.len() as u128).as_str());
            out.append(" rules.\n\n");
            out.append(c.to_markdown().as_str());
            out.append("\n");
        },
        Err(e) => {
            out.append("> ✗ not compressible: ");
            out.append(e.message().as_str());
            out.append("\n\n");
        },
    }
    assert(out@ =~= start + rules_text(d@, answer));
    assert(out@ =~= section_text(d@, file@, answer));
    assert(is_answer(d@.table, answer));
    out
}

/// Writes the document on the rules of a method or class.
pub fn write_rules(x: &DecisionExtraction, fqn: &str, file: &str) -> (r: String)
    requires
        forall|k: int| 0 <= k < x.methods@.len() ==> (#[trigger] x.methods@[k])@.table.wf(),
    ensures
        is_rules_document(x@, fqn@, file@, r@),
{
    let ghost methods = x@.methods;
    let ghost skipped = x@.skipped;
    let mut out = String::new();
    let mut found = false;
    let ghost mut sections: Seq<Seq<char>> = Seq::empty();
    let mut i: usize = 0;
    assert(out@ =~= concat(sections));
    assert(are_sections(selected(methods.take(0), fqn@), file@, sections));
    while i < x.methods.len()
        invariant
            i <= x.methods@.len(),
            methods == x@.methods,
            forall|k: int| 0 <= k < x.methods@.len() ==> (#[trigger] x.methods@[k])@.table.wf(),
            found == (selected(methods.take(i as int), fqn@).len() > 0),
            are_sections(selected(methods.take(i as int), fqn@), file@, sections),
            out@ == concat(sections),
        decreases x.methods.len() - i,
    {
        let d = &x.methods[i];
        assert(methods[i as int] == d@);
        assert(methods.take(i + 1).drop_last() =~= methods.take(i as int));
        if same(d.fqn().as_str(), fqn) || same(d.class_fqn.as_str(), fqn) {
            found = true;
            let section = write_section(d, file);
            proof {
                lemma_concat_push(sections, section@);
                sections = sections.push(section@);
            }
            out.append(section.as_str());
        }
        i = i + 1;
    }
    assert(methods.take(i as int) =~= methods);
    let ghost body = out@;
    let mut prefix = fqn.to_owned();
    prefix.append(".");
    let mut left_out = false;
    let mut k: usize = 0;
    assert(concat(skipped_lines(skipped.take(0), fqn@)) =~= Seq::empty());
    while k < x.skipped.len()
        invariant
            k <= x.skipped@.len(),
            skipped == x@.skipped,
            prefix@ == fqn@ + "."@,
            left_out == (skipped_lines(skipped.take(k as int), fqn@).len() > 0),
            out@ == body + concat(skipped_lines(skipped.take(k as int), fqn@)),
        decreases x.skipped.len() - k,
    {
        let item = &x.skipped[k];
        assert(skipped[k as int] == (item.0@, item.1@));
        assert(skipped.take(k + 1).drop_last() =~= skipped.take(k as int));
        if same(item.0.as_str(), fqn) || starts_with(chars_of(item.0.as_str()).as_slice(), prefix.as_str()) {
            left_out = true;
            let mut line = "- skipped ".to_owned();
            line.append(item.0.as_str());
            line.append(": ");
            line.append(item.1.as_str());
            line.append("\n");
            proof {
                lemma_concat_push(skipped_lines(skipped.take(k as int), fqn@), line@);
            }
            out.append(line.as_str());
        }
        k = k + 1;
    }
    assert(skipped.take(k as int) =~= skipped);
    if !found && !left_out {
        let mut note = fqn.to_owned();
        note.append(" has no extractable branching logic (no if/else, or only unmodeled constructs).");
        return note;
    }
    out
}

/// An answer to the question for the rules of a symbol.
pub open spec fn is_rules_answer(
    engine: QueryEngine,
    symbol: Seq<char>,
    terminals: Seq<Seq<char>>,
    r: Result<String, RpcError>,
) -> bool {
    match witnessed(engine.space(), symbol) {
        None => r matches Err(e) && e@ == tool_failure("Symbol not found: "@ + symbol),
        Some((fqn, file, _)) => match lookup(engine.sources(), file) {
            None => r matches Err(e) && e@ == tool_failure(not_loaded(file)),
            Some(source) => match parsed_methods(source, terminals) {
                None => r matches Err(e) && e@ == tool_failure(
                    "Parse failed for "@ + file + ": failed to parse source"@,
                ),
                Some(x) => r matches Ok(text) && is_rules_document(x, fqn, file, text@),
            },
        },
    }
}

/// The decisions of a source, where it is not too long and can be parsed.
pub open spec fn parsed_methods(source: Seq<char>, terminals: Seq<Seq<char>>) -> Option<MethodsView> {
    if !fits(source) {
        None
    } else {
        match java_nodes(source) {
            Some(t) => Some(tree_methods(t, seq!["System.exit"@] + terminals)),
            None => None,
        }
    }
}

fn parse_failure(file: &str) -> (r: RpcError)
    ensures
        r@ == tool_failure("Parse failed for "@ + file@ + ": failed to parse source"@),
{
    let mut message = "Parse failed for ".to_owned();
    message.append(file);
    message.append(": failed to parse source");
    RpcError { code: -32000, message }
}

/// Flattens the branching logic of a method, or of every method of a class,
/// into minimized decision tables.
pub fn extract_core_rules(engine: &QueryEngine, symbol: &str, terminal_calls: Vec<String>) -> (r: Result<String, RpcError>)
    ensures
        is_rules_answer(*engine, symbol@, texts(terminal_calls@), r),
{
    let (fqn, file) = match engine.witness_of(symbol) {
        Some((fqn, file, _)) => (fqn, file),
        None => {
            return Err(fails("Symbol not found: ", symbol));
        },
    };
    let source = match engine.file_source(file.as_str()) {
        Some(s) => s,
        None => {
            return Err(source_missing(file.as_str()));
        },
    };
    if !source_fits(source) {
        return Err(parse_failure(file.as_str()));
    }
    let extractor = match DecisionExtractor::new() {
        Ok(x) => x,
        Err(e) => {
            return Err(fails("Extractor init failed: ", e.as_str()));
        },
    };
    let mut extractor = extractor.with_terminal_calls(terminal_calls);
    match extractor.extract(source) {
        Ok(x) => {
            Ok(write_rules(&x, fqn.as_str(), file.as_str()))
        },
        Err(_) => Err(parse_failure(file.as_str())),
    }
}

} // verus!
