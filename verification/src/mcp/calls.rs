//! Calls of the tools that the server offers.

use serde_json::Value;
use vstd::prelude::*;

use crate::json::{
    as_items, as_number, as_text, field, json, json_list, list_texts, texts_at, JsonView,
};
use crate::lines::opt_text;
use crate::model::semantic::{AnnotationView, SemanticAnnotation};
use crate::text::{same, texts};

verus! {

/// An error as the protocol reports it.
#[derive(Debug, Clone)]
pub struct RpcError {
    pub code: i32,
    pub message: String,
}

#[verifier::ext_equal]
pub struct RpcErrorView {
    pub code: int,
    pub message: Seq<char>,
}

impl View for RpcError {
    type V = RpcErrorView;

    open spec fn view(&self) -> RpcErrorView {
        RpcErrorView { code: self.code as int, message: self.message@ }
    }
}

/// A call of a tool with its arguments.
#[derive(Debug)]
pub enum ToolCall {
    Overview,
    Search { query: String, entity_type: Option<String>, limit: usize },
    PackageDependencies,
    ClassDependencies { class: String },
    Explain { symbol: String },
    Callers { symbol: String },
    Callees { symbol: String },
    ColumnUsage { table: String },
    Feature { keyword: String },
    Impact { symbol: String, max_depth: usize },
    Unknowns { scope: Option<String> },
    Enforces { entry_symbol: String, required_relation: String, max_depth: usize },
    SpecLoss,
    DomainClusters { min_lifetime: usize },
    Enrich { symbol: String },
    EnrichBatch { scope: Option<String>, limit: usize },
    Annotate { symbol: String, annotation: SemanticAnnotation },
    DeadCode,
    Hotspots { limit: usize },
    CrudMatrix,
    ExportSpec,
    Save,
    ExtractCoreRules { symbol: String, terminal_calls: Vec<String> },
    DebugTrace { symbol: String, choices: Vec<usize>, terminal_calls: Vec<String> },
}

/// A call as mathematics.
pub enum CallView {
    Overview,
    Search { query: Seq<char>, entity_type: Option<Seq<char>>, limit: usize },
    PackageDependencies,
    ClassDependencies { class: Seq<char> },
    Explain { symbol: Seq<char> },
    Callers { symbol: Seq<char> },
    Callees { symbol: Seq<char> },
    ColumnUsage { table: Seq<char> },
    Feature { keyword: Seq<char> },
    Impact { symbol: Seq<char>, max_depth: usize },
    Unknowns { scope: Option<Seq<char>> },
    Enforces { entry_symbol: Seq<char>, required_relation: Seq<char>, max_depth: usize },
    SpecLoss,
    DomainClusters { min_lifetime: usize },
    Enrich { symbol: Seq<char> },
    EnrichBatch { scope: Option<Seq<char>>, limit: usize },
    Annotate { symbol: Seq<char>, annotation: AnnotationView },
    DeadCode,
    Hotspots { limit: usize },
    CrudMatrix,
    ExportSpec,
    Save,
    ExtractCoreRules { symbol: Seq<char>, terminal_calls: Seq<Seq<char>> },
    DebugTrace { symbol: Seq<char>, choices: Seq<usize>, terminal_calls: Seq<Seq<char>> },
}

impl View for ToolCall {
    type V = CallView;

    open spec fn view(&self) -> CallView {
        match self {
            ToolCall::Overview => CallView::Overview,
            ToolCall::Search { query, entity_type, limit } => CallView::Search {
                query: query@,
                entity_type: opt_text(*entity_type),
                limit: *limit,
            },
            ToolCall::PackageDependencies => CallView::PackageDependencies,
            ToolCall::ClassDependencies { class } => CallView::ClassDependencies {
                class: class@,
            },
            ToolCall::Explain { symbol } => CallView::Explain {
                symbol: symbol@,
            },
            ToolCall::Callers { symbol } => CallView::Callers {
                symbol: symbol@,
            },
            ToolCall::Callees { symbol } => CallView::Callees {
                symbol: symbol@,
            },
            ToolCall::ColumnUsage { table } => CallView::ColumnUsage {
                table: table@,
            },
            ToolCall::Feature { keyword } => CallView::Feature {
                keyword: keyword@,
            },
            ToolCall::Impact { symbol, max_depth } => CallView::Impact {
                symbol: symbol@,
                max_depth: *max_depth,
            },
            ToolCall::Unknowns { scope } => CallView::Unknowns {
                scope: opt_text(*scope),
            },
            ToolCall::Enforces { entry_symbol, required_relation, max_depth } => CallView::Enforces {
                entry_symbol: entry_symbol@,
                required_relation: required_relation@,
                max_depth: *max_depth,
            },
            ToolCall::SpecLoss => CallView::SpecLoss,
            ToolCall::DomainClusters { min_lifetime } => CallView::DomainClusters {
                min_lifetime: *min_lifetime,
            },
            ToolCall::Enrich { symbol } => CallView::Enrich {
                symbol: symbol@,
            },
            ToolCall::EnrichBatch { scope, limit } => CallView::EnrichBatch {
                scope: opt_text(*scope),
                limit: *limit,
            },
            ToolCall::Annotate { symbol, annotation } => CallView::Annotate {
                symbol: symbol@,
                annotation: annotation@,
            },
            ToolCall::DeadCode => CallView::DeadCode,
            ToolCall::Hotspots { limit } => CallView::Hotspots {
                limit: *limit,
            },
            ToolCall::CrudMatrix => CallView::CrudMatrix,
            ToolCall::ExportSpec => CallView::ExportSpec,
            ToolCall::Save => CallView::Save,
            ToolCall::ExtractCoreRules { symbol, terminal_calls } => CallView::ExtractCoreRules {
                symbol: symbol@,
                terminal_calls: texts(terminal_calls@),
            },
            ToolCall::DebugTrace { symbol, choices, terminal_calls } => CallView::DebugTrace {
                symbol: symbol@,
                choices: choices@,
                terminal_calls: texts(terminal_calls@),
            },
        }
    }
}

pub open spec fn call_result(r: Result<ToolCall, RpcError>) -> Result<CallView, RpcErrorView> {
    match r {
        Ok(c) => Ok(c@),
        Err(e) => Err(e@),
    }
}

/// An error in the parameters of a request.
pub open spec fn bad_params(message: Seq<char>) -> RpcErrorView {
    RpcErrorView { code: -32602, message }
}

pub open spec fn missing_argument(key: Seq<char>) -> RpcErrorView {
    bad_params("Missing "@ + key + " argument"@)
}

/// A number among the arguments, or what stands for it.
pub open spec fn number_or(args: JsonView, key: Seq<char>, default: u64) -> usize {
    match args.field(key).number() {
        Some(n) => n as usize,
        None => default as usize,
    }
}

/// The numbers among values.
pub open spec fn numbers_among(list: Seq<JsonView>) -> Seq<usize>
    decreases list.len(),
{
    if list.len() == 0 {
        Seq::empty()
    } else {
        let before = numbers_among(list.drop_last());
        match list.last().number() {
            Some(n) => before.push(n as usize),
            None => before,
        }
    }
}

/// The numbers in the list under a key.
pub open spec fn numbers_at(v: JsonView, key: Seq<char>) -> Seq<usize> {
    match v.field(key).items() {
        Some(l) => numbers_among(l),
        None => Seq::empty(),
    }
}

/// The annotation among the arguments.
pub open spec fn given_annotation(args: JsonView) -> AnnotationView {
    AnnotationView {
        intent: args.field("intent"@).text(),
        behavior: args.field("behavior"@).text(),
        preconditions: texts_at(args, "preconditions"@),
        postconditions: texts_at(args, "postconditions"@),
        invariants: Seq::empty(),
        side_effects: texts_at(args, "side_effects"@),
        error_behavior: args.field("error_behavior"@).text(),
    }
}

/// The call of a named tool.
pub open spec fn named_call(name: Seq<char>, args: JsonView) -> Result<CallView, RpcErrorView> {
    if name == "overview"@ {
        Ok(CallView::Overview)
    } else if name == "search"@ {
        match args.field("query"@).text() {
            Some(query) => Ok(CallView::Search { query, entity_type: args.field("entity_type"@).text(), limit: number_or(args, "limit"@, 30) }),
            None => Err(missing_argument("query"@)),
        }
    } else if name == "package_dependencies"@ {
        Ok(CallView::PackageDependencies)
    } else if name == "class_dependencies"@ {
        match args.field("class"@).text() {
            Some(class) => Ok(CallView::ClassDependencies { class }),
            None => Err(missing_argument("class"@)),
        }
    } else if name == "explain"@ {
        match args.field("symbol"@).text() {
            Some(symbol) => Ok(CallView::Explain { symbol }),
            None => Err(missing_argument("symbol"@)),
        }
    } else if name == "callers"@ {
        match args.field("symbol"@).text() {
            Some(symbol) => Ok(CallView::Callers { symbol }),
            None => Err(missing_argument("symbol"@)),
        }
    } else if name == "callees"@ {
        match args.field("symbol"@).text() {
            Some(symbol) => Ok(CallView::Callees { symbol }),
            None => Err(missing_argument("symbol"@)),
        }
    } else if name == "column_usage"@ {
        match args.field("table"@).text() {
            Some(table) => Ok(CallView::ColumnUsage { table }),
            None => Err(missing_argument("table"@)),
        }
    } else if name == "feature"@ {
        match args.field("keyword"@).text() {
            Some(keyword) => Ok(CallView::Feature { keyword }),
            None => Err(missing_argument("keyword"@)),
        }
    } else if name == "impact"@ {
        match args.field("symbol"@).text() {
            Some(symbol) => Ok(CallView::Impact { symbol, max_depth: number_or(args, "max_depth"@, 3) }),
            None => Err(missing_argument("symbol"@)),
        }
    } else if name == "unknowns"@ {
        Ok(CallView::Unknowns { scope: args.field("scope"@).text() })
    } else if name == "enforces"@ {
        match args.field("entry_symbol"@).text() {
            Some(entry_symbol) => match args.field("required_relation"@).text() {
                Some(required_relation) => Ok(CallView::Enforces { entry_symbol, required_relation, max_depth: number_or(args, "max_depth"@, 5) }),
                None => Err(missing_argument("required_relation"@)),
            },
            None => Err(missing_argument("entry_symbol"@)),
        }
    } else if name == "spec_loss"@ {
        Ok(CallView::SpecLoss)
    } else if name == "domain_clusters"@ {
        Ok(CallView::DomainClusters { min_lifetime: number_or(args, "min_lifetime"@, 2) })
    } else if name == "enrich"@ {
        match args.field("symbol"@).text() {
            Some(symbol) => Ok(CallView::Enrich { symbol }),
            None => Err(missing_argument("symbol"@)),
        }
    } else if name == "enrich_batch"@ {
        Ok(CallView::EnrichBatch { scope: args.field("scope"@).text(), limit: number_or(args, "limit"@, 10) })
    } else if name == "annotate"@ {
        match args.field("symbol"@).text() {
            Some(symbol) => Ok(CallView::Annotate { symbol, annotation: given_annotation(args) }),
            None => Err(missing_argument("symbol"@)),
        }
    } else if name == "dead_code"@ {
        Ok(CallView::DeadCode)
    } else if name == "hotspots"@ {
        Ok(CallView::Hotspots { limit: number_or(args, "limit"@, 20) })
    } else if name == "crud_matrix"@ {
        Ok(CallView::CrudMatrix)
    } else if name == "export_spec"@ {
        Ok(CallView::ExportSpec)
    } else if name == "save"@ {
        Ok(CallView::Save)
    } else if name == "extract_core_rules"@ {
        match args.field("symbol"@).text() {
            Some(symbol) => Ok(CallView::ExtractCoreRules { symbol, terminal_calls: texts_at(args, "terminal_calls"@) }),
            None => Err(missing_argument("symbol"@)),
        }
    } else if name == "debug_trace"@ {
        match args.field("symbol"@).text() {
            Some(symbol) => Ok(CallView::DebugTrace { symbol, choices: numbers_at(args, "choices"@), terminal_calls: texts_at(args, "terminal_calls"@) }),
            None => Err(missing_argument("symbol"@)),
        }
    } else {
        Err(bad_params("Unknown tool: "@ + name))
    }
}

/// The call that the parameters of a request ask for.
pub open spec fn requested_call(params: JsonView) -> Result<CallView, RpcErrorView> {
    match params.field("name"@).text() {
        Some(name) => named_call(name, params.field("arguments"@)),
        None => Err(bad_params("Missing tool name"@)),
    }
}

fn missing(key: &str) -> (r: RpcError)
    ensures
        r@ == missing_argument(key@),
{
    let mut message = "Missing ".to_owned();
    message.append(key);
    message.append(" argument");
    RpcError { code: -32602, message }
}

fn text_if_any(args: &Value, key: &str) -> (r: Option<String>)
    ensures
        opt_text(r) == json(*args).field(key@).text(),
{
    match as_text(field(args, key)) {
        Some(t) => Some(t.to_owned()),
        None => None,
    }
}

fn read_number(args: &Value, key: &str, default: u64) -> (r: usize)
    ensures
        r == number_or(json(*args), key@, default),
{
    match as_number(field(args, key)) {
        Some(n) => n as usize,
        None => default as usize,
    }
}

fn list_numbers(v: &Value, key: &str) -> (r: Vec<usize>)
    ensures
        r@ == numbers_at(json(*v), key@),
{
    let mut r: Vec<usize> = Vec::new();
    let list = match as_items(field(v, key)) {
        Some(l) => l,
        None => {
            return r;
        },
    };
    let ghost all = json_list(list@);
    let mut i: usize = 0;
    while i < list.len()
        invariant
            i <= list@.len(),
            all == json_list(list@),
            r@ == numbers_among(all.take(i as int)),
        decreases list.len() - i,
    {
        assert(all[i as int] == json(list@[i as int]));
        assert(all.take(i + 1).drop_last() =~= all.take(i as int));
        match as_number(&list[i]) {
            Some(n) => {
                r.push(n as usize);
            },
            None => {},
        }
        i = i + 1;
    }
    assert(all.take(i as int) =~= all);
    r
}

fn read_annotation(args: &Value) -> (r: SemanticAnnotation)
    ensures
        r@ == given_annotation(json(*args)),
{
    let r = SemanticAnnotation {
        intent: text_if_any(args, "intent"),
        behavior: text_if_any(args, "behavior"),
        preconditions: list_texts(args, "preconditions"),
        postconditions: list_texts(args, "postconditions"),
        invariants: Vec::new(),
        side_effects: list_texts(args, "side_effects"),
        error_behavior: text_if_any(args, "error_behavior"),
    };
    assert(r@.invariants =~= Seq::empty());
    r
}

/// Reads the call of a named tool.
pub fn read_named_call(name: &str, args: &Value) -> (r: Result<ToolCall, RpcError>)
    ensures
        call_result(r) == named_call(name@, json(*args)),
{
    if same(name, "overview") {
        Ok(ToolCall::Overview)
    } else if same(name, "search") {
        let query = match as_text(field(args, "query")) {
            Some(t) => t.to_owned(),
            None => {
                return Err(missing("query"));
            },
        };
        Ok(
            ToolCall::Search {
                query,
                entity_type: text_if_any(args, "entity_type"),
                limit: read_number(args, "limit", 30),
            },
        )
    } else if same(name, "package_dependencies") {
        Ok(ToolCall::PackageDependencies)
    } else if same(name, "class_dependencies") {
        let class = match as_text(field(args, "class")) {
            Some(t) => t.to_owned(),
            None => {
                return Err(missing("class"));
            },
        };
        Ok(
            ToolCall::ClassDependencies {
                class,
            },
        )
    } else if same(name, "explain") {
        let symbol = match as_text(field(args, "symbol")) {
            Some(t) => t.to_owned(),
            None => {
                return Err(missing("symbol"));
            },
        };
        Ok(
            ToolCall::Explain {
                symbol,
            },
        )
    } else if same(name, "callers") {
        let symbol = match as_text(field(args, "symbol")) {
            Some(t) => t.to_owned(),
            None => {
                return Err(missing("symbol"));
            },
        };
        Ok(
            ToolCall::Callers {
                symbol,
            },
        )
    } else if same(name, "callees") {
        let symbol = match as_text(field(args, "symbol")) {
            Some(t) => t.to_owned(),
            None => {
                return Err(missing("symbol"));
            },
        };
        Ok(
            ToolCall::Callees {
                symbol,
            },
        )
    } else if same(name, "column_usage") {
        let table = match as_text(field(args, "table")) {
            Some(t) => t.to_owned(),
            None => {
                return Err(missing("table"));
            },
        };
        Ok(
            ToolCall::ColumnUsage {
                table,
            },
        )
    } else if same(name, "feature") {
        let keyword = match as_text(field(args, "keyword")) {
            Some(t) => t.to_owned(),
            None => {
                return Err(missing("keyword"));
            },
        };
        Ok(
            ToolCall::Feature {
                keyword,
            },
        )
    } else if same(name, "impact") {
        let symbol = match as_text(field(args, "symbol")) {
            Some(t) => t.to_owned(),
            None => {
                return Err(missing("symbol"));
            },
        };
        Ok(
            ToolCall::Impact {
                symbol,
                max_depth: read_number(args, "max_depth", 3),
            },
        )
    } else if same(name, "unknowns") {
        Ok(
            ToolCall::Unknowns {
                scope: text_if_any(args, "scope"),
            },
        )
    } else if same(name, "enforces") {
        let entry_symbol = match as_text(field(args, "entry_symbol")) {
            Some(t) => t.to_owned(),
            None => {
                return Err(missing("entry_symbol"));
            },
        };
        let required_relation = match as_text(field(args, "required_relation")) {
            Some(t) => t.to_owned(),
            None => {
                return Err(missing("required_relation"));
            },
        };
        Ok(
            ToolCall::Enforces {
                entry_symbol,
                required_relation,
                max_depth: read_number(args, "max_depth", 5),
            },
        )
    } else if same(name, "spec_loss") {
        Ok(ToolCall::SpecLoss)
    } else if same(name, "domain_clusters") {
        Ok(
            ToolCall::DomainClusters {
                min_lifetime: read_number(args, "min_lifetime", 2),
            },
        )
    } else if same(name, "enrich") {
        let symbol = match as_text(field(args, "symbol")) {
            Some(t) => t.to_owned(),
            None => {
                return Err(missing("symbol"));
            },
        };
        Ok(
            ToolCall::Enrich {
                symbol,
            },
        )
    } else if same(name, "enrich_batch") {
        Ok(
            ToolCall::EnrichBatch {
                scope: text_if_any(args, "scope"),
                limit: read_number(args, "limit", 10),
            },
        )
    } else if same(name, "annotate") {
        let symbol = match as_text(field(args, "symbol")) {
            Some(t) => t.to_owned(),
            None => {
                return Err(missing("symbol"));
            },
        };
        Ok(
            ToolCall::Annotate {
                symbol,
                annotation: read_annotation(args),
            },
        )
    } else if same(name, "dead_code") {
        Ok(ToolCall::DeadCode)
    } else if same(name, "hotspots") {
        Ok(
            ToolCall::Hotspots {
                limit: read_number(args, "limit", 20),
            },
        )
    } else if same(name, "crud_matrix") {
        Ok(ToolCall::CrudMatrix)
    } else if same(name, "export_spec") {
        Ok(ToolCall::ExportSpec)
    } else if same(name, "save") {
        Ok(ToolCall::Save)
    } else if same(name, "extract_core_rules") {
        let symbol = match as_text(field(args, "symbol")) {
            Some(t) => t.to_owned(),
            None => {
                return Err(missing("symbol"));
            },
        };
        Ok(
            ToolCall::ExtractCoreRules {
                symbol,
                terminal_calls: list_texts(args, "terminal_calls"),
            },
        )
    } else if same(name, "debug_trace") {
        let symbol = match as_text(field(args, "symbol")) {
            Some(t) => t.to_owned(),
            None => {
                return Err(missing("symbol"));
            },
        };
        Ok(
            ToolCall::DebugTrace {
                symbol,
                choices: list_numbers(args, "choices"),
                terminal_calls: list_texts(args, "terminal_calls"),
            },
        )
    } else {
        let mut message = "Unknown tool: ".to_owned();
        message.append(name);
        Err(RpcError { code: -32602, message })
    }
}

/// Reads the call that the parameters of a request ask for.
pub fn read_tool_call(params: &Value) -> (r: Result<ToolCall, RpcError>)
    ensures
        call_result(r) == requested_call(json(*params)),
{
    match as_text(field(params, "name")) {
        Some(name) => read_named_call(name, field(params, "arguments")),
        None => Err(RpcError { code: -32602, message: "Missing tool name".to_owned() }),
    }
}

} // verus!
