//! What holds of all tools and their calls.

use vstd::prelude::*;

use crate::json::JsonView;
use crate::mcp::calls::{named_call, requested_call, CallView, RpcError, RpcErrorView};
use crate::mcp::catalog::{catalog, ToolView};
use crate::mcp::core_rules::is_rules_answer;
use crate::mcp::dispatch::{answer_result, answered, is_answered, AnswerView, ToolReply};
use crate::query::engine::QueryEngine;

verus! {

/// All required arguments are texts.
pub open spec fn has_required(tool: ToolView, args: JsonView) -> bool {
    forall|i: int| 0 <= i < tool.required.len() ==> args.field(#[trigger] tool.required[i]).text() is Some
}

/// A listed tool can be called, and with the arguments that it requires and
/// no others: a call is accepted exactly where all of these are texts.
pub proof fn law_required_arguments(entities: nat, relations: nat, k: int, args: JsonView)
    requires
        0 <= k < catalog(entities, relations).len(),
    ensures
        named_call(catalog(entities, relations)[k].name, args) is Ok <==> has_required(
            catalog(entities, relations)[k],
            args,
        ),
{
    let tool = catalog(entities, relations)[k];
    reveal_strlit("overview");
    reveal_strlit("search");
    reveal_strlit("package_dependencies");
    reveal_strlit("class_dependencies");
    reveal_strlit("explain");
    reveal_strlit("callers");
    reveal_strlit("callees");
    reveal_strlit("column_usage");
    reveal_strlit("feature");
    reveal_strlit("impact");
    reveal_strlit("unknowns");
    reveal_strlit("enforces");
    reveal_strlit("spec_loss");
    reveal_strlit("domain_clusters");
    reveal_strlit("enrich");
    reveal_strlit("enrich_batch");
    reveal_strlit("annotate");
    reveal_strlit("save");
    reveal_strlit("dead_code");
    reveal_strlit("hotspots");
    reveal_strlit("crud_matrix");
    reveal_strlit("export_spec");
    reveal_strlit("extract_core_rules");
    reveal_strlit("debug_trace");
    assert("callers"@[0] != "explain"@[0]);
    assert("callees"@[0] != "explain"@[0]);
    assert("callees"@[5] != "callers"@[5]);
    assert("feature"@[0] != "explain"@[0]);
    assert("feature"@[0] != "callers"@[0]);
    assert("feature"@[0] != "callees"@[0]);
    assert("impact"@[0] != "search"@[0]);
    assert("unknowns"@[0] != "overview"@[0]);
    assert("enforces"@[0] != "overview"@[0]);
    assert("enforces"@[0] != "unknowns"@[0]);
    assert("enrich"@[0] != "search"@[0]);
    assert("enrich"@[0] != "impact"@[0]);
    assert("enrich_batch"@[0] != "column_usage"@[0]);
    assert("annotate"@[0] != "overview"@[0]);
    assert("annotate"@[0] != "unknowns"@[0]);
    assert("annotate"@[0] != "enforces"@[0]);
    assert("dead_code"@[0] != "spec_loss"@[0]);
    assert("hotspots"@[0] != "overview"@[0]);
    assert("hotspots"@[0] != "unknowns"@[0]);
    assert("hotspots"@[0] != "enforces"@[0]);
    assert("hotspots"@[0] != "annotate"@[0]);
    assert("export_spec"@[0] != "crud_matrix"@[0]);
    assert("extract_core_rules"@[0] != "class_dependencies"@[0]);
    assert("debug_trace"@[0] != "crud_matrix"@[0]);
    assert("debug_trace"@[0] != "export_spec"@[0]);
    if k == 0 {
        assert(tool.name == "overview"@);
        assert(tool.required.len() == 0);
    }
    if k == 1 {
        assert(tool.name == "search"@);
        assert(tool.required.len() == 1);
        assert(tool.required[0] == "query"@);
    }
    if k == 2 {
        assert(tool.name == "package_dependencies"@);
        assert(tool.required.len() == 0);
    }
    if k == 3 {
        assert(tool.name == "class_dependencies"@);
        assert(tool.required.len() == 1);
        assert(tool.required[0] == "class"@);
    }
    if k == 4 {
        assert(tool.name == "explain"@);
        assert(tool.required.len() == 1);
        assert(tool.required[0] == "symbol"@);
    }
    if k == 5 {
        assert(tool.name == "callers"@);
        assert(tool.required.len() == 1);
        assert(tool.required[0] == "symbol"@);
    }
    if k == 6 {
        assert(tool.name == "callees"@);
        assert(tool.required.len() == 1);
        assert(tool.required[0] == "symbol"@);
    }
    if k == 7 {
        assert(tool.name == "column_usage"@);
        assert(tool.required.len() == 1);
        assert(tool.required[0] == "table"@);
    }
    if k == 8 {
        assert(tool.name == "feature"@);
        assert(tool.required.len() == 1);
        assert(tool.required[0] == "keyword"@);
    }
    if k == 9 {
        assert(tool.name == "impact"@);
        assert(tool.required.len() == 1);
        assert(tool.required[0] == "symbol"@);
    }
    if k == 10 {
        assert(tool.name == "unknowns"@);
        assert(tool.required.len() == 0);
    }
    if k == 11 {
        assert(tool.name == "enforces"@);
        assert(tool.required.len() == 2);
        assert(tool.required[0] == "entry_symbol"@);
        assert(tool.required[1] == "required_relation"@);
    }
    if k == 12 {
        assert(tool.name == "spec_loss"@);
        assert(tool.required.len() == 0);
    }
    if k == 13 {
        assert(tool.name == "domain_clusters"@);
        assert(tool.required.len() == 0);
    }
    if k == 14 {
        assert(tool.name == "enrich"@);
        assert(tool.required.len() == 1);
        assert(tool.required[0] == "symbol"@);
    }
    if k == 15 {
        assert(tool.name == "enrich_batch"@);
        assert(tool.required.len() == 0);
    }
    if k == 16 {
        assert(tool.name == "annotate"@);
        assert(tool.required.len() == 1);
        assert(tool.required[0] == "symbol"@);
    }
    if k == 17 {
        assert(tool.name == "save"@);
        assert(tool.required.len() == 0);
    }
    if k == 18 {
        assert(tool.name == "dead_code"@);
        assert(tool.required.len() == 0);
    }
    if k == 19 {
        assert(tool.name == "hotspots"@);
        assert(tool.required.len() == 0);
    }
    if k == 20 {
        assert(tool.name == "crud_matrix"@);
        assert(tool.required.len() == 0);
    }
    if k == 21 {
        assert(tool.name == "export_spec"@);
        assert(tool.required.len() == 0);
    }
    if k == 22 {
        assert(tool.name == "extract_core_rules"@);
        assert(tool.required.len() == 1);
        assert(tool.required[0] == "symbol"@);
    }
    if k == 23 {
        assert(tool.name == "debug_trace"@);
        assert(tool.required.len() == 1);
        assert(tool.required[0] == "symbol"@);
    }
}

/// A tool of the list has the name.
pub open spec fn is_listed(tools: Seq<ToolView>, name: Seq<char>) -> bool {
    exists|k: int| 0 <= k < tools.len() && (#[trigger] tools[k]).name == name
}

/// The parameters name a listed tool and give it all that it requires.
pub open spec fn is_well_called(tools: Seq<ToolView>, params: JsonView) -> bool {
    match params.field("name"@).text() {
        Some(name) => exists|k: int|
            0 <= k < tools.len() && (#[trigger] tools[k]).name == name && has_required(
                tools[k],
                params.field("arguments"@),
            ),
        None => false,
    }
}

/// Only listed tools can be called.
proof fn lemma_called_is_listed(entities: nat, relations: nat, name: Seq<char>, args: JsonView)
    requires
        named_call(name, args) is Ok,
    ensures
        is_listed(catalog(entities, relations), name),
{
    let all = catalog(entities, relations);
    assert(all[0].name == "overview"@);
    assert(all[1].name == "search"@);
    assert(all[2].name == "package_dependencies"@);
    assert(all[3].name == "class_dependencies"@);
    assert(all[4].name == "explain"@);
    assert(all[5].name == "callers"@);
    assert(all[6].name == "callees"@);
    assert(all[7].name == "column_usage"@);
    assert(all[8].name == "feature"@);
    assert(all[9].name == "impact"@);
    assert(all[10].name == "unknowns"@);
    assert(all[11].name == "enforces"@);
    assert(all[12].name == "spec_loss"@);
    assert(all[13].name == "domain_clusters"@);
    assert(all[14].name == "enrich"@);
    assert(all[15].name == "enrich_batch"@);
    assert(all[16].name == "annotate"@);
    assert(all[17].name == "save"@);
    assert(all[18].name == "dead_code"@);
    assert(all[19].name == "hotspots"@);
    assert(all[20].name == "crud_matrix"@);
    assert(all[21].name == "export_spec"@);
    assert(all[22].name == "extract_core_rules"@);
    assert(all[23].name == "debug_trace"@);
}

/// What is wrong with a call is told from what goes wrong in it: a call fails
/// for its parameters exactly where they do not name a listed tool or lack
/// something that it requires, and every other failure is the tool's own.
pub proof fn law_call_errors(engine: QueryEngine, params: JsonView, r: Result<ToolReply, RpcError>)
    requires
        match requested_call(params) {
            Ok(call) => is_answered(engine, call, r),
            Err(error) => r matches Err(e) && e@ == error,
        },
    ensures
        (r matches Err(e) && e.code == -32602) <==> !is_well_called(
            catalog(engine.space().cells.len(), engine.space().links.len()),
            params,
        ),
        r matches Err(e) ==> e.code == -32602 || e.code == -32000,
{
    let (entities, relations) = (engine.space().cells.len(), engine.space().links.len());
    let all = catalog(entities, relations);
    let args = params.field("arguments"@);
    if let Some(name) = params.field("name"@).text() {
        lemma_call_codes(name, args);
        assert forall|k: int| 0 <= k < all.len() && (#[trigger] all[k]).name == name implies (named_call(name, args) is Ok
            <==> has_required(all[k], args)) by {
            law_required_arguments(entities, relations, k, args);
        }
        if named_call(name, args) is Ok {
            lemma_called_is_listed(entities, relations, name, args);
        }
    }
    if let Ok(call) = requested_call(params) {
        lemma_answer_codes(engine, call, r);
    }
}

proof fn lemma_call_codes(name: Seq<char>, args: JsonView)
    ensures
        named_call(name, args) matches Err(e) ==> e.code == -32602,
{
}

proof fn lemma_answer_codes(engine: QueryEngine, call: CallView, r: Result<ToolReply, RpcError>)
    requires
        is_answered(engine, call, r),
    ensures
        r matches Err(e) ==> e.code == -32000,
{
    if let Err(e) = r {
        assert(answer_result(r) == Err::<AnswerView, RpcErrorView>(e@));
        match call {
            CallView::ExtractCoreRules { symbol, terminal_calls } => {
                assert(is_rules_answer(engine, symbol, terminal_calls, Err(e)));
            },
            _ => {
                assert(answered(engine, call) == Err::<AnswerView, RpcErrorView>(e@));
            },
        }
        assert(e@.code == -32000);
    }
}

} // verus!
