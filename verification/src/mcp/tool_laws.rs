//! What the calls of the tools mean.

use vstd::prelude::*;

use crate::json::{texts_at, JsonView};
use crate::mcp::calls::{named_call, numbers_at, CallView, RpcErrorView};
use crate::mcp::dispatch::{answered, AnswerView};
use crate::query::call_graph::call_graph;
use crate::query::crud::crud_of;
use crate::query::dead_code::dead_code_in;
use crate::query::dependencies::{class_graph, package_graph};
use crate::query::engine::QueryEngine;
use crate::query::explain::explained;
use crate::query::feature::feature_of;
use crate::query::hotspots::hotspots_in;
use crate::query::impact::impact_of;
use crate::query::overview::overview_of;
use crate::query::search::searched;
use crate::query::unknowns::unknowns_in;
use crate::text::lowercase;

verus! {

/// A number that is given, or the one that is taken without it.
pub open spec fn given_or(args: JsonView, key: Seq<char>, default: usize, n: usize) -> bool {
    match args.field(key).number() {
        Some(m) => n == m as usize,
        None => n == default,
    }
}

/// A tool is called by its name. What it asks for is handed on part by part, and
/// where it takes a number, that is the one given, or its own.
pub proof fn law_calls(args: JsonView, x: Seq<char>)
    ensures
        named_call("overview"@, args) == Ok::<CallView, RpcErrorView>(CallView::Overview),
        named_call("package_dependencies"@, args) == Ok::<CallView, RpcErrorView>(CallView::PackageDependencies),
        named_call("spec_loss"@, args) == Ok::<CallView, RpcErrorView>(CallView::SpecLoss),
        named_call("dead_code"@, args) == Ok::<CallView, RpcErrorView>(CallView::DeadCode),
        named_call("crud_matrix"@, args) == Ok::<CallView, RpcErrorView>(CallView::CrudMatrix),
        named_call("export_spec"@, args) == Ok::<CallView, RpcErrorView>(CallView::ExportSpec),
        named_call("save"@, args) == Ok::<CallView, RpcErrorView>(CallView::Save),
        args.field("symbol"@).text() == Some(x) ==> {
            &&& named_call("explain"@, args) == Ok::<CallView, RpcErrorView>(CallView::Explain { symbol: x })
            &&& named_call("callers"@, args) == Ok::<CallView, RpcErrorView>(CallView::Callers { symbol: x })
            &&& named_call("callees"@, args) == Ok::<CallView, RpcErrorView>(CallView::Callees { symbol: x })
            &&& named_call("enrich"@, args) == Ok::<CallView, RpcErrorView>(CallView::Enrich { symbol: x })
        },
        args.field("class"@).text() == Some(x) ==> named_call("class_dependencies"@, args) == Ok::<
            CallView,
            RpcErrorView,
        >(CallView::ClassDependencies { class: x }),
        args.field("table"@).text() == Some(x) ==> named_call("column_usage"@, args) == Ok::<CallView, RpcErrorView>(
            CallView::ColumnUsage { table: x },
        ),
        args.field("keyword"@).text() == Some(x) ==> named_call("feature"@, args) == Ok::<CallView, RpcErrorView>(
            CallView::Feature { keyword: x },
        ),
        named_call("unknowns"@, args) == Ok::<CallView, RpcErrorView>(
            CallView::Unknowns { scope: args.field("scope"@).text() },
        ),
        args.field("query"@).text() == Some(x) ==> (named_call("search"@, args) matches Ok(c) && (c matches CallView::Search {
            query,
            entity_type,
            limit,
        } && query == x && entity_type == args.field("entity_type"@).text() && given_or(args, "limit"@, 30, limit))),
        args.field("symbol"@).text() == Some(x) ==> (named_call("impact"@, args) matches Ok(c) && (c matches CallView::Impact {
            symbol,
            max_depth,
        } && symbol == x && given_or(args, "max_depth"@, 3, max_depth))),
        args.field("entry_symbol"@).text() == Some(x) && args.field("required_relation"@).text() is Some ==> (named_call(
            "enforces"@,
            args,
        ) matches Ok(c) && (c matches CallView::Enforces { entry_symbol, required_relation, max_depth } && entry_symbol
            == x && args.field("required_relation"@).text() == Some(required_relation) && given_or(
            args,
            "max_depth"@,
            5,
            max_depth,
        ))),
        named_call("domain_clusters"@, args) matches Ok(c) && (c matches CallView::DomainClusters { min_lifetime }
            && given_or(args, "min_lifetime"@, 2, min_lifetime)),
        named_call("enrich_batch"@, args) matches Ok(c) && (c matches CallView::EnrichBatch { scope, limit } && scope
            == args.field("scope"@).text() && given_or(args, "limit"@, 10, limit)),
        named_call("hotspots"@, args) matches Ok(c) && (c matches CallView::Hotspots { limit } && given_or(
            args,
            "limit"@,
            20,
            limit,
        )),
        args.field("symbol"@).text() == Some(x) ==> (named_call("annotate"@, args) matches Ok(c)
            && (c matches CallView::Annotate { symbol, annotation } && {
            &&& symbol == x
            &&& annotation.intent == args.field("intent"@).text()
            &&& annotation.behavior == args.field("behavior"@).text()
            &&& annotation.preconditions == texts_at(args, "preconditions"@)
            &&& annotation.postconditions == texts_at(args, "postconditions"@)
            &&& annotation.invariants.len() == 0
            &&& annotation.side_effects == texts_at(args, "side_effects"@)
            &&& annotation.error_behavior == args.field("error_behavior"@).text()
        })),
        args.field("symbol"@).text() == Some(x) ==> named_call("extract_core_rules"@, args) == Ok::<
            CallView,
            RpcErrorView,
        >(CallView::ExtractCoreRules { symbol: x, terminal_calls: texts_at(args, "terminal_calls"@) }),
        args.field("symbol"@).text() == Some(x) ==> named_call("debug_trace"@, args) == Ok::<CallView, RpcErrorView>(
            CallView::DebugTrace {
                symbol: x,
                choices: numbers_at(args, "choices"@),
                terminal_calls: texts_at(args, "terminal_calls"@),
            },
        ),
{
    reveal_strlit("overview");
    reveal_strlit("search");
    reveal_strlit("package_dependencies");
    reveal_strlit("class_dependencies");
    reveal_strlit("explain");
    reveal_strlit("callers");
    reveal_strlit("callees");
    reveal_strlit("column_usage");
    reveal_strlit("feature");
    reveal_strlit("impact");
    reveal_strlit("unknowns");
    reveal_strlit("enforces");
    reveal_strlit("spec_loss");
    reveal_strlit("domain_clusters");
    reveal_strlit("enrich");
    reveal_strlit("enrich_batch");
    reveal_strlit("annotate");
    reveal_strlit("dead_code");
    reveal_strlit("hotspots");
    reveal_strlit("crud_matrix");
    reveal_strlit("export_spec");
    reveal_strlit("save");
    reveal_strlit("extract_core_rules");
    reveal_strlit("debug_trace");
    assert("overview"@.len() == 8 && "search"@.len() == 6 && "package_dependencies"@.len() == 20
        && "class_dependencies"@.len() == 18 && "explain"@.len() == 7 && "callers"@.len() == 7
        && "callees"@.len() == 7 && "column_usage"@.len() == 12 && "feature"@.len() == 7 && "impact"@.len() == 6
        && "unknowns"@.len() == 8 && "enforces"@.len() == 8 && "spec_loss"@.len() == 9
        && "domain_clusters"@.len() == 15 && "enrich"@.len() == 6 && "enrich_batch"@.len() == 12
        && "annotate"@.len() == 8 && "dead_code"@.len() == 9 && "hotspots"@.len() == 8 && "crud_matrix"@.len() == 11
        && "export_spec"@.len() == 11 && "save"@.len() == 4 && "extract_core_rules"@.len() == 18
        && "debug_trace"@.len() == 11);
    assert("overview"@[0] == 'o' && "unknowns"@[0] == 'u' && "enforces"@[0] == 'e' && "hotspots"@[0] == 'h'
        && "annotate"@[0] == 'a' && "impact"@[0] == 'i' && "search"@[0] == 's' && "enrich"@[0] == 'e'
        && "class_dependencies"@[0] == 'c' && "extract_core_rules"@[0] == 'e' && "explain"@[0] == 'e'
        && "feature"@[0] == 'f' && "callers"@[0] == 'c' && "callees"@[0] == 'c' && "callees"@[5] == 'e'
        && "callers"@[5] == 'r' && "column_usage"@[0] == 'c' && "enrich_batch"@[0] == 'e' && "dead_code"@[0] == 'd'
        && "spec_loss"@[0] == 's' && "crud_matrix"@[0] == 'c' && "export_spec"@[0] == 'e'
        && "debug_trace"@[0] == 'd');
}

/// Each call is answered by the question that it names.
pub proof fn law_answers(engine: QueryEngine, x: Seq<char>, n: usize)
    ensures
        answered(engine, CallView::Overview) == Ok::<AnswerView, RpcErrorView>(
            AnswerView::Overview(overview_of(engine.space())),
        ),
        answered(engine, CallView::PackageDependencies) == Ok::<AnswerView, RpcErrorView>(
            AnswerView::Dependencies(package_graph(engine.space())),
        ),
        answered(engine, CallView::DeadCode) == Ok::<AnswerView, RpcErrorView>(
            AnswerView::DeadCode(dead_code_in(engine.space(), engine.sources())),
        ),
        answered(engine, CallView::Search { query: x, entity_type: None, limit: n }) == Ok::<AnswerView, RpcErrorView>(
            AnswerView::Search(searched(engine.space(), x, lowercase(x), None, n)),
        ),
        call_graph(engine.space(), x, true) matches Ok(g) ==> answered(engine, CallView::Callers { symbol: x }) == Ok::<
            AnswerView,
            RpcErrorView,
        >(AnswerView::Calls(g)),
        call_graph(engine.space(), x, false) matches Ok(g) ==> answered(engine, CallView::Callees { symbol: x })
            == Ok::<AnswerView, RpcErrorView>(AnswerView::Calls(g)),
        explained(engine.space(), x) matches Ok(g) ==> answered(engine, CallView::Explain { symbol: x }) == Ok::<
            AnswerView,
            RpcErrorView,
        >(AnswerView::Explain(g)),
        class_graph(engine.space(), x, lowercase(x)) matches Ok(g) ==> answered(
            engine,
            CallView::ClassDependencies { class: x },
        ) == Ok::<AnswerView, RpcErrorView>(AnswerView::Dependencies(g)),
        feature_of(engine.space(), x, lowercase(x)) matches Ok(g) ==> answered(engine, CallView::Feature { keyword: x })
            == Ok::<AnswerView, RpcErrorView>(AnswerView::Feature(g)),
        impact_of(engine.space(), engine.stored(), x, n) matches Ok(g) ==> answered(
            engine,
            CallView::Impact { symbol: x, max_depth: n },
        ) == Ok::<AnswerView, RpcErrorView>(AnswerView::Impact(g)),
        hotspots_in(engine.space(), engine.sources(), n) matches Ok(g) ==> answered(
            engine,
            CallView::Hotspots { limit: n },
        ) == Ok::<AnswerView, RpcErrorView>(AnswerView::Hotspots(g)),
        crud_of(engine.space(), engine.sources()) matches Ok(g) ==> answered(engine, CallView::CrudMatrix) == Ok::<
            AnswerView,
            RpcErrorView,
        >(AnswerView::Crud(g)),
        answered(engine, CallView::Unknowns { scope: Some(x) }) == Ok::<AnswerView, RpcErrorView>(
            AnswerView::Unknowns(unknowns_in(engine.space(), Some(x), Some(lowercase(x)))),
        ),
{
}

} // verus!
