//! Extracts decision tables from Java method bodies.
//!
//! Each method's paths are enumerated. Outcomes are observable behaviour, not
//! just return text: variable writes are tracked along each path, `return x`
//! reports the value last assigned to `x`, and writes to targets that are not
//! local, as well as calls, are added to the outcome.
//!
//! Constructs that the walk does not model mark the method as incomplete when
//! they can leave it; methods with too many conditions, paths or steps are
//! skipped with a reason.

use vstd::prelude::*;

use crate::lift::decision_walk::{too_many_paths, walk, WalkView, Walker, MAX_PATHS};
use crate::lift::merging::state_views;
use crate::lift::rule_laws::law_methods_compress;
use crate::lift::symbolic::{pairs, StateView, SymState};
use crate::lift::syntax::{
    child_in_role, fits, java_nodes, node_end, parse_java, rows_fit, text_in_role, NodeView, SyntaxTree,
};
use crate::lift::tag_extractor::{inputs_of, lemma_row_inputs, row_inputs};
use crate::lift::tag_paths::too_many;
use crate::lines::opt_text;
use crate::logic::table::{DecisionTable, Entry, Error, TableView};
use crate::seqs::{lemma_filter_ends, lemma_filter_step};
use crate::text::{contains_text, copy_texts, join, joined, texts};
use crate::text_set::{including, TextSet};

verus! {

/// Decision table extracted from one method.
#[derive(Debug)]
pub struct MethodDecision {
    /// `package.Class`; empty for the default package's top level.
    pub class_fqn: String,
    pub method_name: String,
    pub start_line: u32,
    pub table: DecisionTable,
    /// The body contains constructs that are not modeled and that can leave
    /// the method; the table omits those outcomes.
    pub incomplete: bool,
}

#[verifier::ext_equal]
pub struct MethodView {
    pub class_fqn: Seq<char>,
    pub method_name: Seq<char>,
    pub start_line: int,
    pub table: TableView,
    pub incomplete: bool,
}

impl View for MethodDecision {
    type V = MethodView;

    open spec fn view(&self) -> MethodView {
        MethodView {
            class_fqn: self.class_fqn@,
            method_name: self.method_name@,
            start_line: self.start_line as int,
            table: self.table@,
            incomplete: self.incomplete,
        }
    }
}

/// A name inside what encloses it, if anything does.
pub open spec fn qualified(outer: Seq<char>, name: Seq<char>) -> Seq<char> {
    if outer.len() == 0 {
        name
    } else {
        outer + "."@ + name
    }
}

fn qualify(outer: &str, name: &str) -> (r: String)
    ensures
        r@ == qualified(outer@, name@),
{
    if outer.is_empty() {
        return name.to_owned();
    }
    let mut r = outer.to_owned();
    r.append(".");
    r.append(name);
    r
}

impl MethodDecision {
    /// The qualified name of the method.
    pub fn fqn(&self) -> (r: String)
        ensures
            r@ == qualified(self@.class_fqn, self@.method_name),
    {
        qualify(self.class_fqn.as_str(), self.method_name.as_str())
    }
}

#[derive(Debug)]
pub struct DecisionExtraction {
    pub methods: Vec<MethodDecision>,
    /// Methods that could not be extracted: the qualified name and the reason.
    pub skipped: Vec<(String, String)>,
}

#[verifier::ext_equal]
pub struct MethodsView {
    pub methods: Seq<MethodView>,
    pub skipped: Seq<(Seq<char>, Seq<char>)>,
}

impl View for DecisionExtraction {
    type V = MethodsView;

    open spec fn view(&self) -> MethodsView {
        MethodsView { methods: self.methods@.map_values(|m: MethodDecision| m@), skipped: pairs(self.skipped@) }
    }
}

impl MethodsView {
    pub open spec fn empty() -> Self {
        MethodsView { methods: Seq::empty(), skipped: Seq::empty() }
    }
}

impl Default for DecisionExtraction {
    fn default() -> (r: Self)
        ensures
            r@ == MethodsView::empty(),
    {
        let r = DecisionExtraction { methods: Vec::new(), skipped: Vec::new() };
        assert(r@ =~= MethodsView::empty());
        r
    }
}

/// The names of the parameters among the siblings in a range.
pub open spec fn names_in(t: Seq<NodeView>, lo: int, hi: int, names: Seq<Seq<char>>) -> Seq<Seq<char>>
    decreases hi - lo,
{
    if lo >= hi {
        names
    } else {
        let end = node_end(t, lo, hi);
        match child_in_role(t, lo, end, "name"@) {
            Some((a, _)) => if t[lo].named {
                names_in(t, end, hi, including(names, t[a].text))
            } else {
                names_in(t, end, hi, names)
            },
            None => names_in(t, end, hi, names),
        }
    }
}

/// The parameters of the method `lo..hi`.
pub open spec fn parameter_names(t: Seq<NodeView>, lo: int, hi: int) -> Seq<Seq<char>> {
    match child_in_role(t, lo, hi, "parameters"@) {
        Some((a, b)) => names_in(t, a + 1, b, Seq::empty()),
        None => Seq::empty(),
    }
}

/// The writes that can be seen from outside.
pub open spec fn visible_writes(writes: Seq<(Seq<char>, Seq<char>)>, locals: Seq<Seq<char>>) -> Seq<Seq<char>>
    decreases writes.len(),
{
    if writes.len() == 0 {
        Seq::empty()
    } else {
        let before = visible_writes(writes.drop_last(), locals);
        let (target, value) = writes.last();
        if locals.contains(target) {
            before
        } else {
            before.push(target + " = "@ + value)
        }
    }
}

/// What a path does that can be seen from outside.
pub open spec fn visible_effects(st: StateView, locals: Seq<Seq<char>>) -> Seq<Seq<char>> {
    visible_writes(st.writes, locals) + st.calls
}

/// Every path has the effect.
pub open spec fn is_shared(w: WalkView, effect: Seq<char>) -> bool {
    forall|i: int| 0 <= i < w.paths.len() ==> visible_effects((#[trigger] w.paths[i]).0, w.locals).contains(effect)
}

/// How a path ends, with the effects that not every path has.
pub open spec fn path_outcome(w: WalkView, path: (StateView, Seq<char>)) -> Seq<char> {
    let distinct = visible_effects(path.0, w.locals).filter(|e: Seq<char>| !is_shared(w, e));
    if distinct.len() == 0 {
        path.1
    } else {
        path.1 + " {"@ + joined(distinct, ", "@) + "}"@
    }
}

/// The decision table of a walk: a row per path.
pub open spec fn walk_table(w: WalkView) -> TableView {
    TableView {
        variables: w.atoms,
        rows: w.paths.map_values(
            |p: (StateView, Seq<char>)|
                Entry { when: row_inputs(p.0.conds, w.atoms.len()), outcome: path_outcome(w, p) },
        ),
    }
}

/// A walk before its first step.
pub open spec fn walk_start(locals: Seq<Seq<char>>) -> WalkView {
    WalkView { atoms: Seq::empty(), locals, steps: 0, paths: Seq::empty(), incomplete: false }
}

/// A walk whose last states have run off the end of the method.
pub open spec fn walk_finished(w: WalkView, ends: Seq<StateView>) -> WalkView {
    WalkView { paths: w.paths + ends.map_values(|s: StateView| (s, "(fall-through)"@)), ..w }
}

/// All paths through the method `lo..hi`; none when it has no body.
pub open spec fn method_walk(t: Seq<NodeView>, terminals: Seq<Seq<char>>, lo: int, hi: int) -> Result<
    Option<WalkView>,
    Seq<char>,
> {
    match child_in_role(t, lo, hi, "body"@) {
        None => Ok(None),
        Some((a, b)) => match walk(
            t,
            terminals,
            a + 1,
            b,
            StateView::start(),
            Seq::empty(),
            walk_start(parameter_names(t, lo, hi)),
        ) {
            Err(e) => Err(e),
            Ok((w, ends)) => {
                let w = walk_finished(w, ends);
                if w.atoms.len() == 0 || w.paths.len() == 0 {
                    Ok(None)
                } else if w.paths.len() > MAX_PATHS {
                    Err(too_many_paths())
                } else {
                    Ok(Some(w))
                }
            },
        },
    }
}

/// The package and the enclosing classes, dotted.
pub open spec fn enclosing(package: Option<Seq<char>>, classes: Seq<Seq<char>>) -> Seq<char> {
    match package {
        Some(p) => joined(seq![p] + classes, "."@),
        None => joined(classes, "."@),
    }
}

/// What is extracted with the method `lo..hi` added.
pub open spec fn with_method(
    t: Seq<NodeView>,
    terminals: Seq<Seq<char>>,
    package: Option<Seq<char>>,
    classes: Seq<Seq<char>>,
    lo: int,
    hi: int,
    found: MethodsView,
) -> MethodsView {
    let class_fqn = enclosing(package, classes);
    let method_name = text_in_role(t, lo, hi, "name"@);
    match method_walk(t, terminals, lo, hi) {
        Ok(None) => found,
        Err(e) => MethodsView { skipped: found.skipped.push((qualified(class_fqn, method_name), e)), ..found },
        Ok(Some(w)) => MethodsView {
            methods: found.methods.push(
                MethodView {
                    class_fqn,
                    method_name,
                    start_line: t[lo].start_row + 1,
                    table: walk_table(w),
                    incomplete: w.incomplete,
                },
            ),
            ..found
        },
    }
}

/// A declaration that encloses methods.
pub open spec fn is_class_like(n: NodeView) -> bool {
    ||| n.kind == "class_declaration"@
    ||| n.kind == "interface_declaration"@
    ||| n.kind == "enum_declaration"@
    ||| n.kind == "record_declaration"@
}

pub open spec fn is_method(n: NodeView) -> bool {
    n.kind == "method_declaration"@ || n.kind == "constructor_declaration"@
}

/// What is extracted with the methods of the range added.
pub open spec fn methods_in(
    t: Seq<NodeView>,
    terminals: Seq<Seq<char>>,
    package: Option<Seq<char>>,
    classes: Seq<Seq<char>>,
    lo: int,
    hi: int,
    found: MethodsView,
) -> MethodsView
    decreases hi - lo,
{
    if lo >= hi {
        found
    } else {
        let end = node_end(t, lo, hi);
        let here = if is_class_like(t[lo]) {
            methods_in(t, terminals, package, classes.push(text_in_role(t, lo, end, "name"@)), lo + 1, end, found)
        } else if is_method(t[lo]) {
            with_method(t, terminals, package, classes, lo, end, found)
        } else {
            methods_in(t, terminals, package, classes, lo + 1, end, found)
        };
        methods_in(t, terminals, package, classes, end, hi, here)
    }
}

/// The first plain or dotted name among the siblings in a range.
pub open spec fn name_in(t: Seq<NodeView>, lo: int, hi: int) -> Option<Seq<char>>
    decreases hi - lo,
{
    if lo >= hi {
        None
    } else if t[lo].kind == "scoped_identifier"@ || t[lo].kind == "identifier"@ {
        Some(t[lo].text)
    } else {
        name_in(t, node_end(t, lo, hi), hi)
    }
}

/// The package that is declared among the siblings in a range.
pub open spec fn package_in(t: Seq<NodeView>, lo: int, hi: int) -> Option<Seq<char>>
    decreases hi - lo,
{
    if lo >= hi {
        None
    } else {
        let end = node_end(t, lo, hi);
        match name_in(t, lo + 1, end) {
            Some(name) => if t[lo].kind == "package_declaration"@ {
                Some(name)
            } else {
                package_in(t, end, hi)
            },
            None => package_in(t, end, hi),
        }
    }
}

/// What is extracted from a syntax tree.
pub open spec fn tree_methods(t: Seq<NodeView>, terminals: Seq<Seq<char>>) -> MethodsView {
    methods_in(t, terminals, package_in(t, 1, t.len() as int), Seq::empty(), 0, t.len() as int, MethodsView::empty())
}

fn list_parameters(tree: &SyntaxTree, lo: usize, hi: usize) -> (r: TextSet)
    requires
        lo < hi <= tree@.len(),
    ensures
        r.texts() == parameter_names(tree@, lo as int, hi as int),
{
    let ghost t = tree@;
    let mut r = TextSet::new();
    match tree.child(lo, hi, "parameters") {
        Some((a, b)) => {
            let mut i: usize = a + 1;
            while i < b
                invariant
                    a < i <= b <= tree@.len(),
                    t == tree@,
                    names_in(t, i as int, b as int, r.texts()) == names_in(t, a + 1, b as int, Seq::empty()),
                decreases b - i,
            {
                let end: usize = tree.end_of(i, b);
                if tree.is_named(i) {
                    match tree.child(i, end, "name") {
                        Some((n, _)) => {
                            r.add_text(tree.text(n).to_owned());
                        },
                        None => {},
                    }
                }
                i = end;
            }
        },
        None => {},
    }
    r
}

fn effects_of(state: &SymState, locals: &TextSet) -> (r: Vec<String>)
    ensures
        texts(r@) == visible_effects(state@, locals.texts()),
{
    let ghost w = state@.writes;
    let mut r: Vec<String> = Vec::new();
    let mut i: usize = 0;
    assert(texts(r@) =~= Seq::empty());
    while i < state.writes.len()
        invariant
            i <= state.writes@.len(),
            w == pairs(state.writes@),
            texts(r@) == visible_writes(w.take(i as int), locals.texts()),
        decreases state.writes.len() - i,
    {
        assert(w.take(i + 1).drop_last() =~= w.take(i as int));
        assert(w[i as int] == (state.writes@[i as int].0@, state.writes@[i as int].1@));
        if !locals.has(state.writes[i].0.as_str()) {
            let ghost before = texts(r@);
            let mut text = state.writes[i].0.clone();
            text.append(" = ");
            text.append(state.writes[i].1.as_str());
            let ghost x = text@;
            r.push(text);
            assert(texts(r@) =~= before.push(x));
        }
        i = i + 1;
    }
    assert(w.take(i as int) =~= w);
    let ghost before = r@;
    let mut calls = copy_texts(state.calls.as_slice());
    let ghost c = calls@;
    r.append(&mut calls);
    assert(r@ =~= before + c);
    assert(texts(r@) =~= texts(before) + texts(c));
    r
}

/// The effect lists are those of the paths of a walk.
spec fn lists_effects(lists: Seq<Vec<String>>, w: WalkView) -> bool {
    &&& lists.len() == w.paths.len()
    &&& forall|i: int|
        0 <= i < lists.len() ==> texts((#[trigger] lists[i])@) == visible_effects(w.paths[i].0, w.locals)
}

fn shared(lists: &Vec<Vec<String>>, effect: &str, Ghost(w): Ghost<WalkView>) -> (r: bool)
    requires
        lists_effects(lists@, w),
    ensures
        r == is_shared(w, effect@),
{
    let mut i: usize = 0;
    while i < lists.len()
        invariant
            i <= lists@.len(),
            lists_effects(lists@, w),
            forall|k: int| 0 <= k < i ==> visible_effects((#[trigger] w.paths[k]).0, w.locals).contains(effect@),
        decreases lists.len() - i,
    {
        assert(texts(lists@[i as int]@) == visible_effects(w.paths[i as int].0, w.locals));
        if !contains_text(lists[i].as_slice(), effect) {
            return false;
        }
        i = i + 1;
    }
    true
}

fn outcome_of(lists: &Vec<Vec<String>>, k: usize, core: &str, Ghost(w): Ghost<WalkView>) -> (r: String)
    requires
        lists_effects(lists@, w),
        k < lists@.len(),
        core@ == w.paths[k as int].1,
    ensures
        r@ == path_outcome(w, w.paths[k as int]),
{
    let effects = &lists[k];
    let ghost p = |e: Seq<char>| !is_shared(w, e);
    let ghost all = texts(effects@);
    let mut distinct: Vec<String> = Vec::new();
    let mut i: usize = 0;
    proof {
        lemma_filter_ends(all, p);
        assert(texts(distinct@) =~= Seq::empty());
    }
    while i < effects.len()
        invariant
            i <= effects@.len(),
            lists_effects(lists@, w),
            p == |e: Seq<char>| !is_shared(w, e),
            all == texts(effects@),
            texts(distinct@) == all.take(i as int).filter(p),
        decreases effects.len() - i,
    {
        proof {
            lemma_filter_step(all, p, i as int);
        }
        if !shared(lists, effects[i].as_str(), Ghost(w)) {
            let ghost before = texts(distinct@);
            distinct.push(effects[i].clone());
            assert(texts(distinct@) =~= before.push(all[i as int]));
        }
        i = i + 1;
    }
    proof {
        lemma_filter_ends(all, p);
        assert(texts(distinct@).len() == distinct@.len());
    }
    let mut r = core.to_owned();
    if distinct.len() > 0 {
        r.append(" {");
        r.append(join(distinct.as_slice(), ", ").as_str());
        r.append("}");
    }
    r
}

/// Builds the decision table of a walk.
fn build_table(walker: &Walker) -> (r: DecisionTable)
    ensures
        r@ == walk_table(walker@),
        r@.wf(),
{
    let ghost w = walker@;
    let mut lists: Vec<Vec<String>> = Vec::new();
    let mut i: usize = 0;
    while i < walker.paths.len()
        invariant
            i <= walker.paths@.len(),
            w == walker@,
            lists@.len() == i,
            forall|k: int|
                0 <= k < i ==> texts((#[trigger] lists@[k])@) == visible_effects(w.paths[k].0, w.locals),
        decreases walker.paths.len() - i,
    {
        assert(w.paths[i as int].0 == walker.paths@[i as int].0@);
        lists.push(effects_of(&walker.paths[i].0, &walker.locals));
        i = i + 1;
    }
    let ghost rows = walk_table(w).rows;
    let mut table = DecisionTable::new(copy_texts(walker.atoms.as_slice()));
    let mut k: usize = 0;
    while k < walker.paths.len()
        invariant
            k <= walker.paths@.len(),
            w == walker@,
            rows == walk_table(w).rows,
            lists_effects(lists@, w),
            table@.wf(),
            table@.variables == w.atoms,
            table@.rows == rows.take(k as int),
        decreases walker.paths.len() - k,
    {
        assert(w.paths[k as int] == (walker.paths@[k as int].0@, walker.paths@[k as int].1@));
        let outcome = outcome_of(&lists, k, walker.paths[k].1.as_str(), Ghost(w));
        let inputs = inputs_of(&walker.paths[k].0.conds, walker.atoms.len());
        proof {
            lemma_row_inputs(w.paths[k as int].0.conds, w.atoms.len());
        }
        let added = table.add_row(inputs, outcome.as_str());
        assert(added is Ok);
        k = k + 1;
        assert(table@.rows =~= rows.take(k as int));
    }
    assert(table@ =~= walk_table(w));
    table
}

/// What walking a method returns.
spec fn method_result(r: Result<Option<Walker>, String>) -> Result<Option<WalkView>, Seq<char>> {
    match r {
        Ok(Some(w)) => Ok(Some(w@)),
        Ok(None) => Ok(None),
        Err(e) => Err(e@),
    }
}

fn walk_method(tree: &SyntaxTree, terminals: &Vec<String>, lo: usize, hi: usize) -> (r: Result<Option<Walker>, String>)
    requires
        lo < hi <= tree@.len(),
    ensures
        method_result(r) == method_walk(tree@, texts(terminals@), lo as int, hi as int),
{
    let (a, b) = match tree.child(lo, hi, "body") {
        Some((a, b)) => (a, b),
        None => {
            return Ok(None);
        },
    };
    let mut walker = Walker {
        atoms: Vec::new(),
        locals: list_parameters(tree, lo, hi),
        steps: 0,
        paths: Vec::new(),
        incomplete: false,
    };
    let none: Vec<(usize, usize)> = Vec::new();
    assert(walker@ =~= walk_start(parameter_names(tree@, lo as int, hi as int)));
    assert(crate::lift::decision_walk::spans(none@) =~= Seq::empty());
    let mut ends = match walker.walk_statements(tree, terminals, a + 1, b, SymState::new(), &none) {
        Ok(ends) => ends,
        Err(e) => {
            return Err(e);
        },
    };
    let ghost w = walker@;
    let ghost last = state_views(ends@).map_values(|s: StateView| (s, "(fall-through)"@));
    let mut i: usize = 0;
    assert(walker@.paths =~= w.paths + last.take(0));
    while i < ends.len()
        invariant
            i <= ends@.len(),
            last == state_views(ends@).map_values(|s: StateView| (s, "(fall-through)"@)),
            walker@ == (WalkView { paths: w.paths + last.take(i as int), ..w }),
        decreases ends.len() - i,
    {
        let ghost before = walker@;
        let state = ends[i].copied();
        let ghost st = state@;
        assert(last[i as int] == (st, "(fall-through)"@));
        walker.paths.push((state, "(fall-through)".to_owned()));
        i = i + 1;
        assert(walker@.paths =~= before.paths.push((st, "(fall-through)"@)));
        assert(walker@.paths =~= w.paths + last.take(i as int));
        assert(walker@ =~= WalkView { paths: w.paths + last.take(i as int), ..w });
    }
    assert(last.take(i as int) =~= last);
    assert(walker@.paths.len() == walker.paths@.len());
    assert(walker@.atoms.len() == walker.atoms@.len());
    if walker.atoms.len() == 0 || walker.paths.len() == 0 {
        return Ok(None);
    }
    if walker.paths.len() > MAX_PATHS {
        return Err(too_many(MAX_PATHS, " paths"));
    }
    Ok(Some(walker))
}

pub fn enclosing_name(package: &Option<String>, classes: &Vec<String>) -> (r: String)
    ensures
        r@ == enclosing(opt_text(*package), texts(classes@)),
{
    match package {
        Some(p) => {
            let mut parts: Vec<String> = Vec::new();
            parts.push(p.clone());
            let mut more = copy_texts(classes.as_slice());
            let ghost m = more@;
            let ghost first = parts@;
            parts.append(&mut more);
            assert(parts@ =~= first + m);
            assert(texts(parts@) =~= seq![p@] + texts(classes@));
            join(parts.as_slice(), ".")
        },
        None => join(classes.as_slice(), "."),
    }
}

impl DecisionExtraction {
    /// Adds the method `lo..hi`.
    fn extract_method(
        &mut self,
        tree: &SyntaxTree,
        terminals: &Vec<String>,
        package: &Option<String>,
        classes: &Vec<String>,
        lo: usize,
        hi: usize,
    )
        requires
            lo < hi <= tree@.len(),
            rows_fit(tree@),
        ensures
            final(self)@ == with_method(
                tree@,
                texts(terminals@),
                opt_text(*package),
                texts(classes@),
                lo as int,
                hi as int,
                old(self)@,
            ),
    {
        let ghost before = self@;
        let method_name = tree.role_text(lo, hi, "name");
        let class_fqn = enclosing_name(package, classes);
        match walk_method(tree, terminals, lo, hi) {
            Ok(None) => {},
            Err(reason) => {
                let fqn = qualify(class_fqn.as_str(), method_name.as_str());
                let ghost item = (fqn@, reason@);
                self.skipped.push((fqn, reason));
                assert(self@.skipped =~= before.skipped.push(item));
            },
            Ok(Some(walker)) => {
                assert(tree@[lo as int] == tree.nodes@[lo as int]@);
                let method = MethodDecision {
                    class_fqn,
                    method_name,
                    start_line: tree.nodes[lo].start_row + 1,
                    table: build_table(&walker),
                    incomplete: walker.incomplete,
                };
                let ghost item = method@;
                self.methods.push(method);
                assert(self@.methods =~= before.methods.push(item));
            },
        }
    }

    /// Adds the methods of a range.
    fn visit(
        &mut self,
        tree: &SyntaxTree,
        terminals: &Vec<String>,
        package: &Option<String>,
        classes: &mut Vec<String>,
        lo: usize,
        hi: usize,
    )
        requires
            lo <= hi <= tree@.len(),
            rows_fit(tree@),
        ensures
            texts(final(classes)@) == texts(old(classes)@),
            final(self)@ == methods_in(
                tree@,
                texts(terminals@),
                opt_text(*package),
                texts(old(classes)@),
                lo as int,
                hi as int,
                old(self)@,
            ),
        decreases hi - lo,
    {
        let ghost t = tree@;
        let ghost names = texts(terminals@);
        let ghost stack = texts(classes@);
        let ghost all = methods_in(t, names, opt_text(*package), stack, lo as int, hi as int, self@);
        let mut i: usize = lo;
        while i < hi
            invariant
                lo <= i <= hi <= tree@.len(),
                rows_fit(tree@),
                t == tree@,
                names == texts(terminals@),
                stack == texts(classes@),
                all == methods_in(t, names, opt_text(*package), stack, i as int, hi as int, self@),
            decreases hi - i,
        {
            let end: usize = tree.end_of(i, hi);
            if tree.is_kind(i, "class_declaration") || tree.is_kind(i, "interface_declaration") || tree.is_kind(
                i,
                "enum_declaration",
            ) || tree.is_kind(i, "record_declaration") {
                let name = tree.role_text(i, end, "name");
                let ghost x = name@;
                classes.push(name);
                assert(texts(classes@) =~= stack.push(x));
                self.visit(tree, terminals, package, classes, i + 1, end);
                assert(texts(classes@).len() == classes@.len());
                classes.pop();
                assert(texts(classes@) =~= stack.push(x).drop_last());
                assert(stack.push(x).drop_last() =~= stack);
            } else if tree.is_kind(i, "method_declaration") || tree.is_kind(i, "constructor_declaration") {
                self.extract_method(tree, terminals, package, classes, i, end);
            } else {
                self.visit(tree, terminals, package, classes, i + 1, end);
            }
            i = end;
        }
    }
}

/// The package declared among the siblings in a range.
pub fn find_package(tree: &SyntaxTree, lo: usize, hi: usize) -> (r: Option<String>)
    requires
        lo <= hi <= tree@.len(),
    ensures
        opt_text(r) == package_in(tree@, lo as int, hi as int),
{
    let ghost t = tree@;
    let mut i: usize = lo;
    while i < hi
        invariant
            lo <= i <= hi <= tree@.len(),
            t == tree@,
            package_in(t, lo as int, hi as int) == package_in(t, i as int, hi as int),
        decreases hi - i,
    {
        let end: usize = tree.end_of(i, hi);
        if tree.is_kind(i, "package_declaration") {
            let mut k: usize = i + 1;
            while k < end
                invariant
                    i < k <= end <= tree@.len(),
                    t == tree@,
                    i < hi,
                    end == node_end(t, i as int, hi as int),
                    t[i as int].kind == "package_declaration"@,
                    package_in(t, lo as int, hi as int) == package_in(t, i as int, hi as int),
                    name_in(t, i + 1, end as int) == name_in(t, k as int, end as int),
                decreases end - k,
            {
                if tree.is_kind(k, "scoped_identifier") || tree.is_kind(k, "identifier") {
                    return Some(tree.text(k).to_owned());
                }
                k = tree.end_of(k, end);
            }
        }
        i = end;
    }
    None
}

/// Extracts the decision tables of a syntax tree.
pub fn extract_tree(tree: &SyntaxTree, terminals: &Vec<String>) -> (r: DecisionExtraction)
    requires
        rows_fit(tree@),
    ensures
        r@ == tree_methods(tree@, texts(terminals@)),
{
    let n: usize = tree.nodes.len();
    let package = if n == 0 {
        None
    } else {
        find_package(tree, 1, n)
    };
    let mut classes: Vec<String> = Vec::new();
    let mut r = DecisionExtraction::default();
    assert(texts(classes@) =~= Seq::empty());
    r.visit(tree, terminals, &package, &mut classes, 0, n);
    r
}

pub struct DecisionExtractor {
    /// Callee names that never return (`System.exit` is built in): a path that
    /// reaches one ends there. Entries match the callee (`abortOnError`) or its
    /// dotted form (`Util.abort`).
    terminal_calls: Vec<String>,
}

impl View for DecisionExtractor {
    type V = Seq<Seq<char>>;

    /// The calls that never return.
    closed spec fn view(&self) -> Seq<Seq<char>> {
        texts(self.terminal_calls@)
    }
}

pub open spec fn extraction_result(r: Result<DecisionExtraction, String>) -> Result<MethodsView, Seq<char>> {
    match r {
        Ok(x) => Ok(x@),
        Err(e) => Err(e@),
    }
}

impl DecisionExtractor {
    pub fn new() -> (r: Result<Self, String>)
        ensures
            r matches Ok(x) && x@ == seq!["System.exit"@],
    {
        let mut terminal_calls: Vec<String> = Vec::new();
        terminal_calls.push("System.exit".to_owned());
        assert(texts(terminal_calls@) =~= seq!["System.exit"@]);
        Ok(DecisionExtractor { terminal_calls })
    }

    /// Registers more helpers that end the process (legacy code often wraps
    /// `System.exit` in its own methods).
    pub fn with_terminal_calls(self, names: Vec<String>) -> (r: Self)
        ensures
            r@ == self@ + texts(names@),
    {
        let ghost a = self.terminal_calls@;
        let ghost b = names@;
        let mut terminal_calls = self.terminal_calls;
        let mut names = names;
        terminal_calls.append(&mut names);
        assert(terminal_calls@ =~= a + b);
        assert(texts(terminal_calls@) =~= texts(a) + texts(b));
        DecisionExtractor { terminal_calls }
    }

    /// Extracts decision tables for every branching method in `source`.
    /// Methods without any conditional are not reported.
    pub fn extract(&mut self, source: &str) -> (r: Result<DecisionExtraction, String>)
        requires
            fits(source@),
        ensures
            *final(self) == *old(self),
            extraction_result(r) == match java_nodes(source@) {
                Some(t) => Ok(tree_methods(t, old(self)@)),
                None => Err("failed to parse source"@),
            },
            r matches Ok(x) ==> forall|k: int| 0 <= k < x.methods@.len() ==> (#[trigger] x.methods@[k])@.table.wf(),
    {
        match parse_java(source) {
            Some(tree) => {
                let x = extract_tree(&tree, &self.terminal_calls);
                assert forall|k: int| 0 <= k < x.methods@.len() implies (#[trigger] x.methods@[k])@.table.wf() by {
                    assert(x@.methods[k] == x.methods@[k]@);
                    law_methods_compress(tree@, self@, k, Err(Error::EmptyTable));
                }
                Ok(x)
            },
            None => Err("failed to parse source".to_owned()),
        }
    }
}

} // verus!
