//! The tools that the server offers.

use vstd::prelude::*;

use crate::lines::opt_text;
use crate::text::{decimal, decimal_text, texts};

verus! {

/// A parameter of a tool. The items of a list have a type of their own.
#[derive(Debug, Clone)]
pub struct ToolParameter {
    pub name: String,
    pub kind: String,
    pub items: Option<String>,
    pub description: String,
}

#[verifier::ext_equal]
pub struct ParameterView {
    pub name: Seq<char>,
    pub kind: Seq<char>,
    pub items: Option<Seq<char>>,
    pub description: Seq<char>,
}

impl View for ToolParameter {
    type V = ParameterView;

    open spec fn view(&self) -> ParameterView {
        ParameterView {
            name: self.name@,
            kind: self.kind@,
            items: opt_text(self.items),
            description: self.description@,
        }
    }
}

/// A tool: what it is called, what it does and what it takes.
#[derive(Debug)]
pub struct ToolInfo {
    pub name: String,
    pub description: String,
    pub parameters: Vec<ToolParameter>,
    pub required: Vec<String>,
}

#[verifier::ext_equal]
pub struct ToolView {
    pub name: Seq<char>,
    pub description: Seq<char>,
    pub parameters: Seq<ParameterView>,
    pub required: Seq<Seq<char>>,
}

impl View for ToolInfo {
    type V = ToolView;

    open spec fn view(&self) -> ToolView {
        ToolView {
            name: self.name@,
            description: self.description@,
            parameters: self.parameters@.map_values(|p: ToolParameter| p@),
            required: texts(self.required@),
        }
    }
}

pub open spec fn tool_views(v: Seq<ToolInfo>) -> Seq<ToolView> {
    v.map_values(|t: ToolInfo| t@)
}

pub open spec fn parameter_views(v: Seq<ToolParameter>) -> Seq<ParameterView> {
    v.map_values(|p: ToolParameter| p@)
}

/// A parameter that is no list.
pub open spec fn plain(name: Seq<char>, kind: Seq<char>, description: Seq<char>) -> ParameterView {
    ParameterView { name, kind, items: None, description }
}

/// A parameter that is a list.
pub open spec fn listed(name: Seq<char>, items: Seq<char>, description: Seq<char>) -> ParameterView {
    ParameterView { name, kind: "array"@, items: Some(items), description }
}

fn make_plain(name: &str, kind: &str, description: &str) -> (r: ToolParameter)
    ensures
        r@ == plain(name@, kind@, description@),
{
    ToolParameter { name: name.to_owned(), kind: kind.to_owned(), items: None, description: description.to_owned() }
}

fn make_list(name: &str, items: &str, description: &str) -> (r: ToolParameter)
    ensures
        r@ == listed(name@, items@, description@),
{
    ToolParameter {
        name: name.to_owned(),
        kind: "array".to_owned(),
        items: Some(items.to_owned()),
        description: description.to_owned(),
    }
}

/// A tool that takes nothing.
fn make_bare(name: &str, description: &str) -> (r: ToolInfo)
    ensures
        r@ == bare_tool(name@, description@),
{
    let r = ToolInfo {
        name: name.to_owned(),
        description: description.to_owned(),
        parameters: Vec::new(),
        required: Vec::new(),
    };
    assert(r@ =~= bare_tool(name@, description@));
    r
}

pub open spec fn bare_tool(name: Seq<char>, description: Seq<char>) -> ToolView {
    ToolView { name, description, parameters: Seq::empty(), required: Seq::empty() }
}

/// The overview names how much there is.
pub open spec fn overview_text(entities: nat, relations: nat) -> Seq<char> {
    "Get a full overview of the analyzed Java codebase ("@ + decimal_text(entities) + " entities, "@ + decimal_text(relations)
        + " relations). Returns: entity/relation counts by type, package structure with class/method/field counts."@
}

fn write_overview(entities: usize, relations: usize) -> (r: String)
    ensures
        r@ == overview_text(entities as nat, relations as nat),
{
    let mut out = "Get a full overview of the analyzed Java codebase (".to_owned();
    out.append(decimal(entities as u128).as_str());
    out.append(" entities, ");
    out.append(decimal(relations as u128).as_str());
    out.append(
        " relations). Returns: entity/relation counts by type, package structure with class/method/field counts.",
    );
    out
}

pub const SEARCH_TEXT: &'static str =
    "Search for Java entities (classes, methods, fields, etc.) by name. Supports partial matching. Returns FQN, type, file location, and line number.";

pub open spec fn search_tool() -> ToolView {
    ToolView {
        name: "search"@,
        description: SEARCH_TEXT@,
        parameters: seq![
            plain("query"@, "string"@, "Search query (partial name match, e.g., 'Order', 'login', 'Customer')"@),
            plain("entity_type"@, "string"@, "Optional filter: class, interface, method, field, constructor, enum, package"@),
            plain("limit"@, "integer"@, "Max results (default 30)"@),
        ],
        required: seq!["query"@],
    }
}

fn make_search() -> (r: ToolInfo)
    ensures
        r@ == search_tool(),
{
    let mut parameters: Vec<ToolParameter> = Vec::new();
    parameters.push(make_plain("query", "string", "Search query (partial name match, e.g., 'Order', 'login', 'Customer')"));
    parameters.push(make_plain("entity_type", "string", "Optional filter: class, interface, method, field, constructor, enum, package"));
    parameters.push(make_plain("limit", "integer", "Max results (default 30)"));
    let mut required: Vec<String> = Vec::new();
    required.push("query".to_owned());
    assert(parameter_views(parameters@) =~= search_tool().parameters);
    assert(texts(required@) =~= search_tool().required);
    ToolInfo { name: "search".to_owned(), description: SEARCH_TEXT.to_owned(), parameters, required }
}

pub const PACKAGE_DEPENDENCIES_TEXT: &'static str =
    "Show cross-package dependency graph. Returns packages as nodes and inter-package calls/references as edges with counts. Use this to understand the overall architecture.";

pub const CLASS_DEPENDENCIES_TEXT: &'static str =
    "Show dependencies of a specific class: what it depends on and what depends on it. Returns a dependency graph centered on the given class.";

pub open spec fn class_dependencies_tool() -> ToolView {
    ToolView {
        name: "class_dependencies"@,
        description: CLASS_DEPENDENCIES_TEXT@,
        parameters: seq![
            plain("class"@, "string"@, "Fully qualified or simple class name"@),
        ],
        required: seq!["class"@],
    }
}

fn make_class_dependencies() -> (r: ToolInfo)
    ensures
        r@ == class_dependencies_tool(),
{
    let mut parameters: Vec<ToolParameter> = Vec::new();
    parameters.push(make_plain("class", "string", "Fully qualified or simple class name"));
    let mut required: Vec<String> = Vec::new();
    required.push("class".to_owned());
    assert(parameter_views(parameters@) =~= class_dependencies_tool().parameters);
    assert(texts(required@) =~= class_dependencies_tool().required);
    ToolInfo { name: "class_dependencies".to_owned(), description: CLASS_DEPENDENCIES_TEXT.to_owned(), parameters, required }
}

pub const EXPLAIN_TEXT: &'static str =
    "Explain a Java code symbol's meaning with evidence-backed confidence. Returns: signature, intent, behavior, pre/post conditions, side effects, error behavior, source witnesses (file:line), callers, and callees.";

pub open spec fn explain_tool() -> ToolView {
    ToolView {
        name: "explain"@,
        description: EXPLAIN_TEXT@,
        parameters: seq![
            plain("symbol"@, "string"@, "Fully qualified name (e.g., com.example.UserService) or simple name"@),
        ],
        required: seq!["symbol"@],
    }
}

fn make_explain() -> (r: ToolInfo)
    ensures
        r@ == explain_tool(),
{
    let mut parameters: Vec<ToolParameter> = Vec::new();
    parameters.push(make_plain("symbol", "string", "Fully qualified name (e.g., com.example.UserService) or simple name"));
    let mut required: Vec<String> = Vec::new();
    required.push("symbol".to_owned());
    assert(parameter_views(parameters@) =~= explain_tool().parameters);
    assert(texts(required@) =~= explain_tool().required);
    ToolInfo { name: "explain".to_owned(), description: EXPLAIN_TEXT.to_owned(), parameters, required }
}

pub const CALLERS_TEXT: &'static str =
    "List all verified callers of a Java code symbol with confidence and source witnesses.";

pub open spec fn callers_tool() -> ToolView {
    ToolView {
        name: "callers"@,
        description: CALLERS_TEXT@,
        parameters: seq![
            plain("symbol"@, "string"@, "Fully qualified or simple symbol name"@),
        ],
        required: seq!["symbol"@],
    }
}

fn make_callers() -> (r: ToolInfo)
    ensures
        r@ == callers_tool(),
{
    let mut parameters: Vec<ToolParameter> = Vec::new();
    parameters.push(make_plain("symbol", "string", "Fully qualified or simple symbol name"));
    let mut required: Vec<String> = Vec::new();
    required.push("symbol".to_owned());
    assert(parameter_views(parameters@) =~= callers_tool().parameters);
    assert(texts(required@) =~= callers_tool().required);
    ToolInfo { name: "callers".to_owned(), description: CALLERS_TEXT.to_owned(), parameters, required }
}

pub const CALLEES_TEXT: &'static str =
    "List all verified callees of a Java code symbol with confidence and source witnesses.";

pub open spec fn callees_tool() -> ToolView {
    ToolView {
        name: "callees"@,
        description: CALLEES_TEXT@,
        parameters: seq![
            plain("symbol"@, "string"@, "Fully qualified or simple symbol name"@),
        ],
        required: seq!["symbol"@],
    }
}

fn make_callees() -> (r: ToolInfo)
    ensures
        r@ == callees_tool(),
{
    let mut parameters: Vec<ToolParameter> = Vec::new();
    parameters.push(make_plain("symbol", "string", "Fully qualified or simple symbol name"));
    let mut required: Vec<String> = Vec::new();
    required.push("symbol".to_owned());
    assert(parameter_views(parameters@) =~= callees_tool().parameters);
    assert(texts(required@) =~= callees_tool().required);
    ToolInfo { name: "callees".to_owned(), description: CALLEES_TEXT.to_owned(), parameters, required }
}

pub const COLUMN_USAGE_TEXT: &'static str =
    "Analyze how each column (field) of a data/table class is used across the codebase. Returns: column name, logical name (from JPA @Column annotations, doc comments, or DDL COMMENT), data type, and all read/write sites with file:line — including references inside SQL statements and .sql files. Use this to understand what each DB column is for and where it's accessed.";

pub open spec fn column_usage_tool() -> ToolView {
    ToolView {
        name: "column_usage"@,
        description: COLUMN_USAGE_TEXT@,
        parameters: seq![
            plain("table"@, "string"@, "Table/data class name (e.g., 'User', 'Order', 'Product')"@),
        ],
        required: seq!["table"@],
    }
}

fn make_column_usage() -> (r: ToolInfo)
    ensures
        r@ == column_usage_tool(),
{
    let mut parameters: Vec<ToolParameter> = Vec::new();
    parameters.push(make_plain("table", "string", "Table/data class name (e.g., 'User', 'Order', 'Product')"));
    let mut required: Vec<String> = Vec::new();
    required.push("table".to_owned());
    assert(parameter_views(parameters@) =~= column_usage_tool().parameters);
    assert(texts(required@) =~= column_usage_tool().required);
    ToolInfo { name: "column_usage".to_owned(), description: COLUMN_USAGE_TEXT.to_owned(), parameters, required }
}

pub const FEATURE_TEXT: &'static str =
    "Analyze a business feature by keyword. Finds all related classes, entry points (methods called from outside), internal call flow, external dependencies, and data entities. Use this to understand a feature's scope and structure (e.g., 'Order', 'Login', 'Password', 'Mail').";

pub open spec fn feature_tool() -> ToolView {
    ToolView {
        name: "feature"@,
        description: FEATURE_TEXT@,
        parameters: seq![
            plain("keyword"@, "string"@, "Feature keyword to search for (e.g., 'Order', 'Login', 'Customer', 'Mail')"@),
        ],
        required: seq!["keyword"@],
    }
}

fn make_feature() -> (r: ToolInfo)
    ensures
        r@ == feature_tool(),
{
    let mut parameters: Vec<ToolParameter> = Vec::new();
    parameters.push(make_plain("keyword", "string", "Feature keyword to search for (e.g., 'Order', 'Login', 'Customer', 'Mail')"));
    let mut required: Vec<String> = Vec::new();
    required.push("keyword".to_owned());
    assert(parameter_views(parameters@) =~= feature_tool().parameters);
    assert(texts(required@) =~= feature_tool().required);
    ToolInfo { name: "feature".to_owned(), description: FEATURE_TEXT.to_owned(), parameters, required }
}

pub const IMPACT_TEXT: &'static str =
    "Analyze the impact of changing a symbol. Shows what would be affected if the given class/method is modified — direct callers, transitive dependents, and affected files. Use this before making changes.";

pub open spec fn impact_tool() -> ToolView {
    ToolView {
        name: "impact"@,
        description: IMPACT_TEXT@,
        parameters: seq![
            plain("symbol"@, "string"@, "Symbol to analyze change impact for"@),
            plain("max_depth"@, "integer"@, "Max traversal depth (default 3)"@),
        ],
        required: seq!["symbol"@],
    }
}

fn make_impact() -> (r: ToolInfo)
    ensures
        r@ == impact_tool(),
{
    let mut parameters: Vec<ToolParameter> = Vec::new();
    parameters.push(make_plain("symbol", "string", "Symbol to analyze change impact for"));
    parameters.push(make_plain("max_depth", "integer", "Max traversal depth (default 3)"));
    let mut required: Vec<String> = Vec::new();
    required.push("symbol".to_owned());
    assert(parameter_views(parameters@) =~= impact_tool().parameters);
    assert(texts(required@) =~= impact_tool().required);
    ToolInfo { name: "impact".to_owned(), description: IMPACT_TEXT.to_owned(), parameters, required }
}

pub const UNKNOWNS_TEXT: &'static str =
    "List ambiguous points, unresolved references, and low-confidence entities — the known unknowns. These are areas where AI should focus its reasoning. Optionally filter by scope (package or class name).";

pub open spec fn unknowns_tool() -> ToolView {
    ToolView {
        name: "unknowns"@,
        description: UNKNOWNS_TEXT@,
        parameters: seq![
            plain("scope"@, "string"@, "Optional scope filter (package or class name)"@),
        ],
        required: Seq::empty(),
    }
}

fn make_unknowns() -> (r: ToolInfo)
    ensures
        r@ == unknowns_tool(),
{
    let mut parameters: Vec<ToolParameter> = Vec::new();
    parameters.push(make_plain("scope", "string", "Optional scope filter (package or class name)"));
    let required: Vec<String> = Vec::new();
    assert(parameter_views(parameters@) =~= unknowns_tool().parameters);
    assert(texts(required@) =~= unknowns_tool().required);
    ToolInfo { name: "unknowns".to_owned(), description: UNKNOWNS_TEXT.to_owned(), parameters, required }
}

pub const ENFORCES_TEXT: &'static str =
    "Check whether a required relation (e.g. 'java.calls') is reachable from an entry symbol within a depth bound, via HG bounded model checking. Returns satisfied/violated/unknown with visited cells and obstructions.";

pub open spec fn enforces_tool() -> ToolView {
    ToolView {
        name: "enforces"@,
        description: ENFORCES_TEXT@,
        parameters: seq![
            plain("entry_symbol"@, "string"@, "Entry symbol to start the bounded check from"@),
            plain("required_relation"@, "string"@, "Relation type that must occur (e.g. 'java.calls')"@),
            plain("max_depth"@, "integer"@, "Max traversal depth (default 5)"@),
        ],
        required: seq!["entry_symbol"@, "required_relation"@],
    }
}

fn make_enforces() -> (r: ToolInfo)
    ensures
        r@ == enforces_tool(),
{
    let mut parameters: Vec<ToolParameter> = Vec::new();
    parameters.push(make_plain("entry_symbol", "string", "Entry symbol to start the bounded check from"));
    parameters.push(make_plain("required_relation", "string", "Relation type that must occur (e.g. 'java.calls')"));
    parameters.push(make_plain("max_depth", "integer", "Max traversal depth (default 5)"));
    let mut required: Vec<String> = Vec::new();
    required.push("entry_symbol".to_owned());
    required.push("required_relation".to_owned());
    assert(parameter_views(parameters@) =~= enforces_tool().parameters);
    assert(texts(required@) =~= enforces_tool().required);
    ToolInfo { name: "enforces".to_owned(), description: ENFORCES_TEXT.to_owned(), parameters, required }
}

pub const SPEC_LOSS_TEXT: &'static str =
    "Measure information loss of the human spec projection via HG's projection kernel — omitted entities, members folded into class sections, undeclared loss, and an overall review risk severity. Use to gauge how complete/honest the generated spec is.";

pub const DOMAIN_CLUSTERS_TEXT: &'static str =
    "Detect domain clusters via topological data analysis (persistent homology over the call graph) and flag clusters that span multiple packages — refactor/boundary candidates. Higher min_lifetime keeps only the most stable clusters.";

pub open spec fn domain_clusters_tool() -> ToolView {
    ToolView {
        name: "domain_clusters"@,
        description: DOMAIN_CLUSTERS_TEXT@,
        parameters: seq![
            plain("min_lifetime"@, "integer"@, "Minimum persistence lifetime (stages) to keep a cluster (default 2)"@),
        ],
        required: Seq::empty(),
    }
}

fn make_domain_clusters() -> (r: ToolInfo)
    ensures
        r@ == domain_clusters_tool(),
{
    let mut parameters: Vec<ToolParameter> = Vec::new();
    parameters.push(make_plain("min_lifetime", "integer", "Minimum persistence lifetime (stages) to keep a cluster (default 2)"));
    let required: Vec<String> = Vec::new();
    assert(parameter_views(parameters@) =~= domain_clusters_tool().parameters);
    assert(texts(required@) =~= domain_clusters_tool().required);
    ToolInfo { name: "domain_clusters".to_owned(), description: DOMAIN_CLUSTERS_TEXT.to_owned(), parameters, required }
}

pub const ENRICH_TEXT: &'static str =
    "Get source code and structural context for a symbol, ready for semantic analysis. Returns the source code, callers, callees, containing class, and analysis instructions. Use this to understand a symbol deeply, then call `annotate` to save your analysis.";

pub open spec fn enrich_tool() -> ToolView {
    ToolView {
        name: "enrich"@,
        description: ENRICH_TEXT@,
        parameters: seq![
            plain("symbol"@, "string"@, "Symbol to get enrichment context for"@),
        ],
        required: seq!["symbol"@],
    }
}

fn make_enrich() -> (r: ToolInfo)
    ensures
        r@ == enrich_tool(),
{
    let mut parameters: Vec<ToolParameter> = Vec::new();
    parameters.push(make_plain("symbol", "string", "Symbol to get enrichment context for"));
    let mut required: Vec<String> = Vec::new();
    required.push("symbol".to_owned());
    assert(parameter_views(parameters@) =~= enrich_tool().parameters);
    assert(texts(required@) =~= enrich_tool().required);
    ToolInfo { name: "enrich".to_owned(), description: ENRICH_TEXT.to_owned(), parameters, required }
}

pub const ENRICH_BATCH_TEXT: &'static str =
    "Get a batch of unannotated entities that need semantic analysis. Returns source code and context for each. Use this to systematically enrich the codebase knowledge — process each entity and call `annotate` for each.";

pub open spec fn enrich_batch_tool() -> ToolView {
    ToolView {
        name: "enrich_batch"@,
        description: ENRICH_BATCH_TEXT@,
        parameters: seq![
            plain("scope"@, "string"@, "Optional scope filter (package or class name, e.g. 'Order', 'com.example.service')"@),
            plain("limit"@, "integer"@, "Max entities to return (default 10)"@),
        ],
        required: Seq::empty(),
    }
}

fn make_enrich_batch() -> (r: ToolInfo)
    ensures
        r@ == enrich_batch_tool(),
{
    let mut parameters: Vec<ToolParameter> = Vec::new();
    parameters.push(make_plain("scope", "string", "Optional scope filter (package or class name, e.g. 'Order', 'com.example.service')"));
    parameters.push(make_plain("limit", "integer", "Max entities to return (default 10)"));
    let required: Vec<String> = Vec::new();
    assert(parameter_views(parameters@) =~= enrich_batch_tool().parameters);
    assert(texts(required@) =~= enrich_batch_tool().required);
    ToolInfo { name: "enrich_batch".to_owned(), description: ENRICH_BATCH_TEXT.to_owned(), parameters, required }
}

pub const ANNOTATE_TEXT: &'static str =
    "Save a semantic annotation for a symbol. Call this after analyzing source code (from `enrich`) to record intent, behavior, pre/post conditions, side effects, and error behavior. This enriches subsequent `explain` queries.";

pub open spec fn annotate_tool() -> ToolView {
    ToolView {
        name: "annotate"@,
        description: ANNOTATE_TEXT@,
        parameters: seq![
            plain("symbol"@, "string"@, "Fully qualified symbol name"@),
            plain("intent"@, "string"@, "One-line purpose description"@),
            plain("behavior"@, "string"@, "Step-by-step behavioral description"@),
            listed("preconditions"@, "string"@, "List of preconditions"@),
            listed("postconditions"@, "string"@, "List of postconditions"@),
            listed("side_effects"@, "string"@, "List of side effects"@),
            plain("error_behavior"@, "string"@, "How errors are handled"@),
        ],
        required: seq!["symbol"@],
    }
}

fn make_annotate() -> (r: ToolInfo)
    ensures
        r@ == annotate_tool(),
{
    let mut parameters: Vec<ToolParameter> = Vec::new();
    parameters.push(make_plain("symbol", "string", "Fully qualified symbol name"));
    parameters.push(make_plain("intent", "string", "One-line purpose description"));
    parameters.push(make_plain("behavior", "string", "Step-by-step behavioral description"));
    parameters.push(make_list("preconditions", "string", "List of preconditions"));
    parameters.push(make_list("postconditions", "string", "List of postconditions"));
    parameters.push(make_list("side_effects", "string", "List of side effects"));
    parameters.push(make_plain("error_behavior", "string", "How errors are handled"));
    let mut required: Vec<String> = Vec::new();
    required.push("symbol".to_owned());
    assert(parameter_views(parameters@) =~= annotate_tool().parameters);
    assert(texts(required@) =~= annotate_tool().required);
    ToolInfo { name: "annotate".to_owned(), description: ANNOTATE_TEXT.to_owned(), parameters, required }
}

pub const SAVE_TEXT: &'static str =
    "Persist all annotations to disk. Call this after a batch of `annotate` calls to save the enriched space data.";

pub const DEAD_CODE_TEXT: &'static str =
    "Find unused methods and classes: entities with no callers or references in the analyzed sources. Each finding has a confidence level (high = private and unreferenced, medium = public but unreferenced, low = possibly framework-invoked) and a reason. Use this to identify deletion candidates in legacy code.";

pub const HOTSPOTS_TEXT: &'static str =
    "Rank methods by approximate cyclomatic complexity and size. Use this to triage where to start reading or refactoring a legacy codebase.";

pub open spec fn hotspots_tool() -> ToolView {
    ToolView {
        name: "hotspots"@,
        description: HOTSPOTS_TEXT@,
        parameters: seq![
            plain("limit"@, "number"@, "Max results (default 20)"@),
        ],
        required: Seq::empty(),
    }
}

fn make_hotspots() -> (r: ToolInfo)
    ensures
        r@ == hotspots_tool(),
{
    let mut parameters: Vec<ToolParameter> = Vec::new();
    parameters.push(make_plain("limit", "number", "Max results (default 20)"));
    let required: Vec<String> = Vec::new();
    assert(parameter_views(parameters@) =~= hotspots_tool().parameters);
    assert(texts(required@) =~= hotspots_tool().required);
    ToolInfo { name: "hotspots".to_owned(), description: HOTSPOTS_TEXT.to_owned(), parameters, required }
}

pub const CRUD_MATRIX_TEXT: &'static str =
    "Build an entry-point × table CRUD matrix: which entry points create/read/update/delete which data classes, derived from SQL statements (Java strings, .sql files, MyBatis mapper XML) and repository naming conventions reached over the call graph. A classic legacy-analysis deliverable.";

pub const EXPORT_SPEC_TEXT: &'static str =
    "Export a Markdown specification document built from the lifted structure and all accumulated semantic annotations (intent, behavior, contracts). Use after enriching the space to produce a human-readable spec for the legacy codebase.";

pub const EXTRACT_CORE_RULES_TEXT: &'static str =
    "Flatten a method's branching logic into a mathematically minimized decision table (Quine-McCluskey). Enumerates all execution paths through if/else (decomposing && and || with short-circuit semantics), then removes conditions that provably never influence any outcome — these 'dead variables' are typically leftover patch noise, and the surviving rules are the true specification. Pass a method FQN for one method or a class FQN for every branching method in the class. Requires the server to be started with --source-root.";

pub open spec fn extract_core_rules_tool() -> ToolView {
    ToolView {
        name: "extract_core_rules"@,
        description: EXTRACT_CORE_RULES_TEXT@,
        parameters: seq![
            plain("symbol"@, "string"@, "Method or class FQN (partial suffix match supported, e.g. 'UserService.createUser' or 'UserService')"@),
            listed("terminal_calls"@, "string"@, "Method names that terminate the process like System.exit (e.g. a legacy error-exit helper); paths end at such calls instead of flowing to an unreachable return"@),
        ],
        required: seq!["symbol"@],
    }
}

fn make_extract_core_rules() -> (r: ToolInfo)
    ensures
        r@ == extract_core_rules_tool(),
{
    let mut parameters: Vec<ToolParameter> = Vec::new();
    parameters.push(make_plain("symbol", "string", "Method or class FQN (partial suffix match supported, e.g. 'UserService.createUser' or 'UserService')"));
    parameters.push(make_list("terminal_calls", "string", "Method names that terminate the process like System.exit (e.g. a legacy error-exit helper); paths end at such calls instead of flowing to an unreachable return"));
    let mut required: Vec<String> = Vec::new();
    required.push("symbol".to_owned());
    assert(parameter_views(parameters@) =~= extract_core_rules_tool().parameters);
    assert(texts(required@) =~= extract_core_rules_tool().required);
    ToolInfo { name: "extract_core_rules".to_owned(), description: EXTRACT_CORE_RULES_TEXT.to_owned(), parameters, required }
}

pub const DEBUG_TRACE_TEXT: &'static str =
    "Runtime-less interactive symbolic stepping of a method. Replays a list of branch choices and reports what executed, the current symbolic variable values and path conditions ('Context Rules'), the call stack, and either the next branch to choose or the outcome. The session is stateless: pass the growing `choices` array each call (undo = drop the last; time-travel = truncate). Start with choices=[] to reach the first branch, then append a branch index to explore a world line. An agent can DFS the choice space to enumerate every behavior. No runtime, no side effects. Requires the server to be started with --source-root.";

pub open spec fn debug_trace_tool() -> ToolView {
    ToolView {
        name: "debug_trace"@,
        description: DEBUG_TRACE_TEXT@,
        parameters: seq![
            plain("symbol"@, "string"@, "Method FQN (partial suffix match supported, e.g. 'UserService.createUser')"@),
            listed("choices"@, "integer"@, "Branch indices chosen so far, in order. Each index selects one world-line from the branches reported by the previous call. Empty = run to the first branch."@),
            listed("terminal_calls"@, "string"@, "Method names that terminate the process like System.exit (legacy error-exit helpers)."@),
        ],
        required: seq!["symbol"@],
    }
}

fn make_debug_trace() -> (r: ToolInfo)
    ensures
        r@ == debug_trace_tool(),
{
    let mut parameters: Vec<ToolParameter> = Vec::new();
    parameters.push(make_plain("symbol", "string", "Method FQN (partial suffix match supported, e.g. 'UserService.createUser')"));
    parameters.push(make_list("choices", "integer", "Branch indices chosen so far, in order. Each index selects one world-line from the branches reported by the previous call. Empty = run to the first branch."));
    parameters.push(make_list("terminal_calls", "string", "Method names that terminate the process like System.exit (legacy error-exit helpers)."));
    let mut required: Vec<String> = Vec::new();
    required.push("symbol".to_owned());
    assert(parameter_views(parameters@) =~= debug_trace_tool().parameters);
    assert(texts(required@) =~= debug_trace_tool().required);
    ToolInfo { name: "debug_trace".to_owned(), description: DEBUG_TRACE_TEXT.to_owned(), parameters, required }
}

/// The tools for a space with so many entities and relations.
pub open spec fn catalog(entities: nat, relations: nat) -> Seq<ToolView> {
    seq![
        bare_tool("overview"@, overview_text(entities, relations)),
        search_tool(),
        bare_tool("package_dependencies"@, PACKAGE_DEPENDENCIES_TEXT@),
        class_dependencies_tool(),
        explain_tool(),
        callers_tool(),
        callees_tool(),
        column_usage_tool(),
        feature_tool(),
        impact_tool(),
        unknowns_tool(),
        enforces_tool(),
        bare_tool("spec_loss"@, SPEC_LOSS_TEXT@),
        domain_clusters_tool(),
        enrich_tool(),
        enrich_batch_tool(),
        annotate_tool(),
        bare_tool("save"@, SAVE_TEXT@),
        bare_tool("dead_code"@, DEAD_CODE_TEXT@),
        hotspots_tool(),
        bare_tool("crud_matrix"@, CRUD_MATRIX_TEXT@),
        bare_tool("export_spec"@, EXPORT_SPEC_TEXT@),
        extract_core_rules_tool(),
        debug_trace_tool(),
    ]
}

/// Lists the tools for a space.
pub fn list_tools(entities: usize, relations: usize) -> (r: Vec<ToolInfo>)
    ensures
        tool_views(r@) == catalog(entities as nat, relations as nat),
{
    let mut r: Vec<ToolInfo> = Vec::new();
    r.push(make_bare("overview", write_overview(entities, relations).as_str()));
    r.push(make_search());
    r.push(make_bare("package_dependencies", PACKAGE_DEPENDENCIES_TEXT));
    r.push(make_class_dependencies());
    r.push(make_explain());
    r.push(make_callers());
    r.push(make_callees());
    r.push(make_column_usage());
    r.push(make_feature());
    r.push(make_impact());
    r.push(make_unknowns());
    r.push(make_enforces());
    r.push(make_bare("spec_loss", SPEC_LOSS_TEXT));
    r.push(make_domain_clusters());
    r.push(make_enrich());
    r.push(make_enrich_batch());
    r.push(make_annotate());
    r.push(make_bare("save", SAVE_TEXT));
    r.push(make_bare("dead_code", DEAD_CODE_TEXT));
    r.push(make_hotspots());
    r.push(make_bare("crud_matrix", CRUD_MATRIX_TEXT));
    r.push(make_bare("export_spec", EXPORT_SPEC_TEXT));
    r.push(make_extract_core_rules());
    r.push(make_debug_trace());
    assert(tool_views(r@) =~= catalog(entities as nat, relations as nat));
    r
}

} // verus!
