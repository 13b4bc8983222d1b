//! Answers to the calls of tools.

use vstd::prelude::*;

use crate::lines::opt_text;
use crate::mcp::calls::{CallView, RpcError, RpcErrorView, ToolCall};
use crate::mcp::core_rules::{
    extract_core_rules, fails, is_rules_answer, not_loaded, source_missing, tool_failure,
};
use crate::model::space_data::{SpaceData, SpaceView};
use crate::query::call_graph::call_graph;
use crate::query::column_usage::{usage_of, ColumnUsageResult, ColumnUsageResultView};
use crate::query::crud::{crud_of, CrudMatrixResult, CrudMatrixResultView};
use crate::query::dead_code::{dead_code_in, DeadCodeResult, DeadCodeResultView};
use crate::query::dependencies::{class_graph, package_graph, DependencyResult, DependencyResultView};
use crate::query::enforces::{enforced, EnforcesResult, EnforcesResultView};
use crate::query::engine::{witnessed, QueryEngine};
use crate::query::enrich::{
    batch_of, enriched, EnrichBatchRequest, EnrichBatchRequestView, EnrichRequest, EnrichRequestView,
};
use crate::query::explain::{annotated, explained};
use crate::query::feature::{feature_of, FeatureResult, FeatureResultView};
use crate::query::hotspots::{hotspots_in, HotspotsResult, HotspotsResultView};
use crate::query::impact::{impact_of, ImpactResult, ImpactResultView};
use crate::query::overview::{overview_of, OverviewResult, OverviewResultView};
use crate::query::projection::{spec_loss_of, SpecLossReport, SpecLossReportView};
use crate::query::search::{searched, SearchResult, SearchResultView};
use crate::query::types::{CallGraphResult, CallGraphResultView, ExplainResult, ExplainResultView};
use crate::query::unknowns::{opt_lower, opt_str, unknowns_in, UnknownsResult, UnknownsResultView};
use crate::text::{decimal, decimal_text, lowercase, texts};
use crate::text_map::lookup;

verus! {

/// What a tool answers.
pub enum ToolReply {
    Overview(OverviewResult),
    Search(SearchResult),
    Dependencies(DependencyResult),
    Explain(ExplainResult),
    Calls(CallGraphResult),
    Columns(ColumnUsageResult),
    Feature(FeatureResult),
    Impact(ImpactResult),
    Unknowns(UnknownsResult),
    Enforces(EnforcesResult),
    SpecLoss(SpecLossReport),
    Enrich(EnrichRequest),
    EnrichBatch(EnrichBatchRequest),
    DeadCode(DeadCodeResult),
    Hotspots(HotspotsResult),
    Crud(CrudMatrixResult),
    Text(String),
    /// The space is to be stored.
    Snapshot(SpaceData),
    /// Clusters are to be looked for.
    Clusters { min_lifetime: usize },
    /// The specification is to be written out.
    Markdown,
    /// The method that starts at a line of a source is to be traced.
    Trace {
        fqn: String,
        file: String,
        line: u32,
        source: String,
        choices: Vec<usize>,
        terminal_calls: Vec<String>,
    },
}

/// An answer as mathematics.
pub enum AnswerView {
    Overview(OverviewResultView),
    Search(SearchResultView),
    Dependencies(DependencyResultView),
    Explain(ExplainResultView),
    Calls(CallGraphResultView),
    Columns(ColumnUsageResultView),
    Feature(FeatureResultView),
    Impact(ImpactResultView),
    Unknowns(UnknownsResultView),
    Enforces(EnforcesResultView),
    SpecLoss(SpecLossReportView),
    Enrich(EnrichRequestView),
    EnrichBatch(EnrichBatchRequestView),
    DeadCode(DeadCodeResultView),
    Hotspots(HotspotsResultView),
    Crud(CrudMatrixResultView),
    Text(Seq<char>),
    Snapshot(SpaceView),
    Clusters { min_lifetime: usize },
    Markdown,
    Trace {
        fqn: Seq<char>,
        file: Seq<char>,
        line: u32,
        source: Seq<char>,
        choices: Seq<usize>,
        terminal_calls: Seq<Seq<char>>,
    },
}

impl View for ToolReply {
    type V = AnswerView;

    open spec fn view(&self) -> AnswerView {
        match self {
            ToolReply::Overview(x) => AnswerView::Overview(x@),
            ToolReply::Search(x) => AnswerView::Search(x@),
            ToolReply::Dependencies(x) => AnswerView::Dependencies(x@),
            ToolReply::Explain(x) => AnswerView::Explain(x@),
            ToolReply::Calls(x) => AnswerView::Calls(x@),
            ToolReply::Columns(x) => AnswerView::Columns(x@),
            ToolReply::Feature(x) => AnswerView::Feature(x@),
            ToolReply::Impact(x) => AnswerView::Impact(x@),
            ToolReply::Unknowns(x) => AnswerView::Unknowns(x@),
            ToolReply::Enforces(x) => AnswerView::Enforces(x@),
            ToolReply::SpecLoss(x) => AnswerView::SpecLoss(x@),
            ToolReply::Enrich(x) => AnswerView::Enrich(x@),
            ToolReply::EnrichBatch(x) => AnswerView::EnrichBatch(x@),
            ToolReply::DeadCode(x) => AnswerView::DeadCode(x@),
            ToolReply::Hotspots(x) => AnswerView::Hotspots(x@),
            ToolReply::Crud(x) => AnswerView::Crud(x@),
            ToolReply::Text(x) => AnswerView::Text(x@),
            ToolReply::Snapshot(x) => AnswerView::Snapshot(x@),
            ToolReply::Clusters { min_lifetime } => AnswerView::Clusters { min_lifetime: *min_lifetime },
            ToolReply::Markdown => AnswerView::Markdown,
            ToolReply::Trace { fqn, file, line, source, choices, terminal_calls } => AnswerView::Trace {
                fqn: fqn@,
                file: file@,
                line: *line,
                source: source@,
                choices: choices@,
                terminal_calls: texts(terminal_calls@),
            },
        }
    }
}

pub open spec fn answer_result(r: Result<ToolReply, RpcError>) -> Result<AnswerView, RpcErrorView> {
    match r {
        Ok(x) => Ok(x@),
        Err(e) => Err(e@),
    }
}

pub open spec fn lower_of(s: Option<Seq<char>>) -> Option<Seq<char>> {
    match s {
        Some(t) => Some(lowercase(t)),
        None => None,
    }
}

fn borrowed(s: &Option<String>) -> (r: Option<&str>)
    ensures
        opt_str(r) == opt_text(*s),
        opt_lower(r) == lower_of(opt_text(*s)),
{
    match s {
        Some(t) => Some(t.as_str()),
        None => None,
    }
}

/// What an annotation is answered with.
pub open spec fn annotated_text(symbol: Seq<char>) -> Seq<char> {
    "{\"status\": \"ok\", \"symbol\": \""@ + symbol + "\"}"@
}

/// What storing a space is answered with.
pub open spec fn saved_text(path: Seq<char>, annotations: nat) -> Seq<char> {
    "{\"status\": \"saved\", \"path\": \""@ + path + "\", \"annotations\": "@ + decimal_text(annotations) + "}"@
}

/// Says that a space has been stored.
pub fn write_saved(path: &str, annotations: usize) -> (r: String)
    ensures
        r@ == saved_text(path@, annotations as nat),
{
    let mut out = "{\"status\": \"saved\", \"path\": \"".to_owned();
    out.append(path);
    out.append("\", \"annotations\": ");
    out.append(decimal(annotations as u128).as_str());
    out.append("}");
    out
}

/// What a call is answered with. The rules of a method are another matter.
pub open spec fn answered(engine: QueryEngine, call: CallView) -> Result<AnswerView, RpcErrorView> {
    match call {
        CallView::Overview => Ok(
            AnswerView::Overview(overview_of(engine.space())),
        ),
        CallView::Search { query, entity_type, limit } => Ok(
            AnswerView::Search(searched(engine.space(), query, lowercase(query), lower_of(entity_type), limit)),
        ),
        CallView::PackageDependencies => Ok(
            AnswerView::Dependencies(package_graph(engine.space())),
        ),
        CallView::ClassDependencies { class } => match class_graph(engine.space(), class, lowercase(class)) {
            Ok(x) => Ok(AnswerView::Dependencies(x)),
            Err(e) => Err(tool_failure("Error: "@ + e)),
        },
        CallView::Explain { symbol } => match explained(engine.space(), symbol) {
            Ok(x) => Ok(AnswerView::Explain(x)),
            Err(e) => Err(tool_failure("Symbol not found: "@ + e)),
        },
        CallView::Callers { symbol } => match call_graph(engine.space(), symbol, true) {
            Ok(x) => Ok(AnswerView::Calls(x)),
            Err(e) => Err(tool_failure("Symbol not found: "@ + e)),
        },
        CallView::Callees { symbol } => match call_graph(engine.space(), symbol, false) {
            Ok(x) => Ok(AnswerView::Calls(x)),
            Err(e) => Err(tool_failure("Symbol not found: "@ + e)),
        },
        CallView::ColumnUsage { table } => match usage_of(engine.space(), table, lowercase(table), engine.sources()) {
            Ok(x) => Ok(AnswerView::Columns(x)),
            Err(e) => Err(tool_failure("Error: "@ + e)),
        },
        CallView::Feature { keyword } => match feature_of(engine.space(), keyword, lowercase(keyword)) {
            Ok(x) => Ok(AnswerView::Feature(x)),
            Err(e) => Err(tool_failure("Error: "@ + e)),
        },
        CallView::Impact { symbol, max_depth } => match impact_of(engine.space(), engine.stored(), symbol, max_depth) {
            Ok(x) => Ok(AnswerView::Impact(x)),
            Err(e) => Err(tool_failure("Error: "@ + e)),
        },
        CallView::Unknowns { scope } => Ok(
            AnswerView::Unknowns(unknowns_in(engine.space(), scope, lower_of(scope))),
        ),
        CallView::Enforces { entry_symbol, required_relation, max_depth } => match enforced(engine.space(), engine.stored(), entry_symbol, required_relation, max_depth) {
            Ok(x) => Ok(AnswerView::Enforces(x)),
            Err(e) => Err(tool_failure("Error: "@ + e)),
        },
        CallView::SpecLoss => match spec_loss_of(engine.space()) {
            Ok(x) => Ok(AnswerView::SpecLoss(x)),
            Err(e) => Err(tool_failure("Error: "@ + e)),
        },
        CallView::Enrich { symbol } => match enriched(engine.space(), symbol, engine.sources()) {
            Ok(x) => Ok(AnswerView::Enrich(x)),
            Err(e) => Err(tool_failure("Error: "@ + e)),
        },
        CallView::EnrichBatch { scope, limit } => Ok(
            AnswerView::EnrichBatch(batch_of(engine.space(), lower_of(scope), limit, engine.sources())),
        ),
        CallView::DeadCode => Ok(
            AnswerView::DeadCode(dead_code_in(engine.space(), engine.sources())),
        ),
        CallView::Hotspots { limit } => match hotspots_in(engine.space(), engine.sources(), limit) {
            Ok(x) => Ok(AnswerView::Hotspots(x)),
            Err(e) => Err(tool_failure("Error: "@ + e)),
        },
        CallView::CrudMatrix => match crud_of(engine.space(), engine.sources()) {
            Ok(x) => Ok(AnswerView::Crud(x)),
            Err(e) => Err(tool_failure("Error: "@ + e)),
        },
        CallView::DomainClusters { min_lifetime } => Ok(AnswerView::Clusters { min_lifetime }),
        CallView::Annotate { symbol, annotation } => match lookup(engine.space().index, symbol) {
            Some(_) => Ok(AnswerView::Text(annotated_text(symbol))),
            None => Err(tool_failure("Error: FQN not found: "@ + symbol)),
        },
        CallView::ExportSpec => Ok(AnswerView::Markdown),
        CallView::Save => Ok(AnswerView::Snapshot(engine.space())),
        CallView::ExtractCoreRules { symbol, terminal_calls } => arbitrary(),
        CallView::DebugTrace { symbol, choices, terminal_calls } => match witnessed(engine.space(), symbol) {
            None => Err(tool_failure("Symbol not found: "@ + symbol)),
            Some((fqn, file, line)) => match lookup(engine.sources(), file) {
                None => Err(tool_failure(not_loaded(file))),
                Some(source) => Ok(AnswerView::Trace { fqn, file, line, source, choices, terminal_calls }),
            },
        },
    }
}

/// An answer to a call.
pub open spec fn is_answered(engine: QueryEngine, call: CallView, r: Result<ToolReply, RpcError>) -> bool {
    match call {
        CallView::ExtractCoreRules { symbol, terminal_calls } => match r {
            Ok(ToolReply::Text(text)) => is_rules_answer(engine, symbol, terminal_calls, Ok(text)),
            Ok(_) => false,
            Err(e) => is_rules_answer(engine, symbol, terminal_calls, Err(e)),
        },
        _ => answer_result(r) == answered(engine, call),
    }
}

/// What a call leaves of the space: only an annotation of a known name changes it.
pub open spec fn space_after(space: SpaceView, call: CallView) -> SpaceView {
    match call {
        CallView::Annotate { symbol, annotation } => match lookup(space.index, symbol) {
            Some(cell_id) => annotated(space, cell_id, annotation),
            None => space,
        },
        _ => space,
    }
}

/// Answers a call.
pub fn call_tool(engine: &mut QueryEngine, call: ToolCall) -> (r: Result<ToolReply, RpcError>)
    ensures
        is_answered(*old(engine), call@, r),
        final(engine).space() == space_after(old(engine).space(), call@),
        final(engine).stored() == old(engine).stored(),
        final(engine).sources() == old(engine).sources(),
{
    match call {
        ToolCall::Overview => Ok(ToolReply::Overview(engine.overview())),
        ToolCall::Search { query, entity_type, limit } => Ok(ToolReply::Search(engine.search(query.as_str(), borrowed(&entity_type), limit))),
        ToolCall::PackageDependencies => Ok(ToolReply::Dependencies(engine.package_dependencies())),
        ToolCall::ClassDependencies { class } => match engine.class_dependencies(class.as_str()) {
            Ok(x) => Ok(ToolReply::Dependencies(x)),
            Err(e) => Err(fails("Error: ", e.as_str())),
        },
        ToolCall::Explain { symbol } => match engine.explain(symbol.as_str()) {
            Ok(x) => Ok(ToolReply::Explain(x)),
            Err(e) => Err(fails("Symbol not found: ", e.as_str())),
        },
        ToolCall::Callers { symbol } => match engine.callers(symbol.as_str()) {
            Ok(x) => Ok(ToolReply::Calls(x)),
            Err(e) => Err(fails("Symbol not found: ", e.as_str())),
        },
        ToolCall::Callees { symbol } => match engine.callees(symbol.as_str()) {
            Ok(x) => Ok(ToolReply::Calls(x)),
            Err(e) => Err(fails("Symbol not found: ", e.as_str())),
        },
        ToolCall::ColumnUsage { table } => match engine.column_usage(table.as_str()) {
            Ok(x) => Ok(ToolReply::Columns(x)),
            Err(e) => Err(fails("Error: ", e.as_str())),
        },
        ToolCall::Feature { keyword } => match engine.feature(keyword.as_str()) {
            Ok(x) => Ok(ToolReply::Feature(x)),
            Err(e) => Err(fails("Error: ", e.as_str())),
        },
        ToolCall::Impact { symbol, max_depth } => match engine.impact(symbol.as_str(), max_depth) {
            Ok(x) => Ok(ToolReply::Impact(x)),
            Err(e) => Err(fails("Error: ", e.as_str())),
        },
        ToolCall::Unknowns { scope } => Ok(ToolReply::Unknowns(engine.unknowns(borrowed(&scope)))),
        ToolCall::Enforces { entry_symbol, required_relation, max_depth } => match engine.enforces(entry_symbol.as_str(), required_relation.as_str(), max_depth) {
            Ok(x) => Ok(ToolReply::Enforces(x)),
            Err(e) => Err(fails("Error: ", e.as_str())),
        },
        ToolCall::SpecLoss => match engine.spec_loss_report() {
            Ok(x) => Ok(ToolReply::SpecLoss(x)),
            Err(e) => Err(fails("Error: ", e.as_str())),
        },
        ToolCall::Enrich { symbol } => match engine.enrich(symbol.as_str()) {
            Ok(x) => Ok(ToolReply::Enrich(x)),
            Err(e) => Err(fails("Error: ", e.as_str())),
        },
        ToolCall::EnrichBatch { scope, limit } => Ok(ToolReply::EnrichBatch(engine.enrich_batch(borrowed(&scope), limit))),
        ToolCall::DeadCode => Ok(ToolReply::DeadCode(engine.dead_code())),
        ToolCall::Hotspots { limit } => match engine.hotspots(limit) {
            Ok(x) => Ok(ToolReply::Hotspots(x)),
            Err(e) => Err(fails("Error: ", e.as_str())),
        },
        ToolCall::CrudMatrix => match engine.crud_matrix() {
            Ok(x) => Ok(ToolReply::Crud(x)),
            Err(e) => Err(fails("Error: ", e.as_str())),
        },
        ToolCall::DomainClusters { min_lifetime } => Ok(ToolReply::Clusters { min_lifetime }),
        ToolCall::Annotate { symbol, annotation } => match engine.annotate_by_fqn(symbol.as_str(), annotation) {
            Ok(_) => {
                let mut out = "{\"status\": \"ok\", \"symbol\": \"".to_owned();
                out.append(symbol.as_str());
                out.append("\"}");
                Ok(ToolReply::Text(out))
            },
            Err(e) => {
                proof {
                    reveal_strlit("Error: ");
                    reveal_strlit("FQN not found: ");
                    reveal_strlit("Error: FQN not found: ");
                    assert("Error: "@ + ("FQN not found: "@ + symbol@) =~= "Error: FQN not found: "@ + symbol@);
                }
                Err(fails("Error: ", e.as_str()))
            },
        },
        ToolCall::ExportSpec => Ok(ToolReply::Markdown),
        ToolCall::Save => Ok(ToolReply::Snapshot(engine.save_snapshot())),
        ToolCall::ExtractCoreRules { symbol, terminal_calls } => {
            match extract_core_rules(engine, symbol.as_str(), terminal_calls) {
                Ok(text) => Ok(ToolReply::Text(text)),
                Err(e) => Err(e),
            }
        },
        ToolCall::DebugTrace { symbol, choices, terminal_calls } => match engine.witness_of(symbol.as_str()) {
            None => Err(fails("Symbol not found: ", symbol.as_str())),
            Some((fqn, file, line)) => {
                let source = match engine.file_source(file.as_str()) {
                    Some(source) => source.to_owned(),
                    None => {
                        return Err(source_missing(file.as_str()));
                    },
                };
                Ok(ToolReply::Trace { fqn, file, line, source, choices, terminal_calls })
            },
        },
    }
}

} // verus!
