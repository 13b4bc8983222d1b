//! Enumeration of the paths through a method body.
//!
//! A condition that is tested again follows the value that the path pins it
//! to, so contradictory paths do not come up. Paths that cannot behave
//! differently from a point on are merged there.

use vstd::prelude::*;

use crate::lift::merging::{merge_states, merged_states, state_views};
use crate::lift::switch_model::{arms_inside, read_switch, switch_model, ArmView, SwitchModel, SwitchView};
use crate::lift::switches::{has_exit, is_switch, stmt_at, tested_in};
use crate::lift::symbolic::{
    effect, eval, evaluate, forks, is_terminal, is_terminal_call, record_write, with_write, written, StateView, SymState,
    MAX_ATOMS,
};
use crate::lift::syntax::{child_in_role, first_named, node_end, NodeView, SyntaxTree};
use crate::lift::tag_paths::{assign, assign_false, pin, pin_false, too_many};
use crate::text::{decimal_text, normalized, texts};
use crate::text_set::{including, TextSet};

verus! {

pub const MAX_PATHS: usize = 4096;

/// Bound on the steps of a walk: a method whose branches cannot be merged is
/// given up early.
pub const MAX_STEPS: usize = 500_000;

/// What a walk has found so far: the conditions, the names that cannot leave
/// the method, the steps taken, the paths that have ended, and whether
/// something that can leave the method was stepped over.
pub struct Walker {
    pub atoms: Vec<String>,
    pub locals: TextSet,
    pub steps: usize,
    pub paths: Vec<(SymState, String)>,
    pub incomplete: bool,
}

#[verifier::ext_equal]
pub struct WalkView {
    pub atoms: Seq<Seq<char>>,
    pub locals: Seq<Seq<char>>,
    pub steps: int,
    pub paths: Seq<(StateView, Seq<char>)>,
    pub incomplete: bool,
}

pub open spec fn path_views(v: Seq<(SymState, String)>) -> Seq<(StateView, Seq<char>)> {
    v.map_values(|p: (SymState, String)| (p.0@, p.1@))
}

impl View for Walker {
    type V = WalkView;

    open spec fn view(&self) -> WalkView {
        WalkView {
            atoms: texts(self.atoms@),
            locals: self.locals.texts(),
            steps: self.steps as int,
            paths: path_views(self.paths@),
            incomplete: self.incomplete,
        }
    }
}

impl WalkView {
    pub open spec fn ended(self, st: StateView, outcome: Seq<char>) -> Self {
        WalkView { paths: self.paths.push((st, outcome)), ..self }
    }

    pub open spec fn knowing(self, atoms: Seq<Seq<char>>) -> Self {
        WalkView { atoms, ..self }
    }

    pub open spec fn passing(self, lo: int, hi: int, t: Seq<NodeView>) -> Self {
        WalkView { incomplete: self.incomplete || has_exit(t, lo, hi), ..self }
    }
}

/// The message when there are too many paths.
pub open spec fn too_many_paths() -> Seq<char> {
    "more than "@ + decimal_text(MAX_PATHS as nat) + " paths"@
}

/// The outcome of a return; a variable is reported by its last value.
pub open spec fn return_text(t: Seq<NodeView>, lo: int, hi: int, st: StateView) -> Seq<char> {
    match first_named(t, lo, hi) {
        Some((a, _)) => {
            let expr = normalized(t[a].text);
            "return "@ + match written(st.writes, expr) {
                Some(v) => if t[a].kind == "identifier"@ {
                    v
                } else {
                    expr
                },
                None => expr,
            }
        },
        None => "return"@,
    }
}

pub open spec fn throw_text(t: Seq<NodeView>, lo: int, hi: int) -> Seq<char> {
    match first_named(t, lo, hi) {
        Some((a, _)) => "throw "@ + normalized(t[a].text),
        None => "throw "@,
    }
}

/// The names that the declarators in a range bring into scope, and what they
/// write.
pub open spec fn declared(t: Seq<NodeView>, lo: int, hi: int, locals: Seq<Seq<char>>, st: StateView) -> (
    Seq<Seq<char>>,
    StateView,
)
    decreases hi - lo,
{
    if lo >= hi {
        (locals, st)
    } else {
        let end = node_end(t, lo, hi);
        if t[lo].named && t[lo].kind == "variable_declarator"@ {
            match child_in_role(t, lo, end, "name"@) {
                None => declared(t, end, hi, locals, st),
                Some((a, _)) => {
                    let name = normalized(t[a].text);
                    let after = match child_in_role(t, lo, end, "value"@) {
                        Some((b, _)) => StateView {
                            writes: with_write(st.writes, name, normalized(t[b].text)),
                            ..st
                        },
                        None => st,
                    };
                    declared(t, end, hi, including(locals, name), after)
                },
            }
        } else {
            declared(t, end, hi, locals, st)
        }
    }
}

/// For each condition, whether one of the ranges tests it.
pub open spec fn open_conditions(t: Seq<NodeView>, atoms: Seq<Seq<char>>, later: Seq<(int, int)>) -> Seq<bool> {
    Seq::new(atoms.len(), |k: int| tested_later(t, atoms[k], later))
}

pub open spec fn tested_later(t: Seq<NodeView>, label: Seq<char>, later: Seq<(int, int)>) -> bool {
    exists|i: int| 0 <= i < later.len() && tested_in(t, (#[trigger] later[i]).0, later[i].1, label)
}

/// A statement that is stepped over.
pub open spec fn is_unmodeled(n: NodeView) -> bool {
    ||| n.kind == "while_statement"@
    ||| n.kind == "for_statement"@
    ||| n.kind == "enhanced_for_statement"@
    ||| n.kind == "do_statement"@
    ||| n.kind == "try_statement"@
    ||| n.kind == "try_with_resources_statement"@
    ||| n.kind == "synchronized_statement"@
    ||| n.kind == "labeled_statement"@
}

/// States put before those of a result.
pub open spec fn before_states(done: Seq<StateView>, rest: Result<(WalkView, Seq<StateView>), Seq<char>>) -> Result<
    (WalkView, Seq<StateView>),
    Seq<char>,
> {
    match rest {
        Ok((w, more)) => Ok((w, done + more)),
        Err(e) => Err(e),
    }
}

/// Walks the statements `lo..hi` from a state. Paths that end are noted; the
/// states that reach the end of the range are given back. The ranges in
/// `later` are walked afterwards.
pub open spec fn walk(
    t: Seq<NodeView>,
    terminals: Seq<Seq<char>>,
    lo: int,
    hi: int,
    st: StateView,
    later: Seq<(int, int)>,
    w: WalkView,
) -> Result<(WalkView, Seq<StateView>), Seq<char>>
    decreases hi - lo, 3nat, 0int,
{
    if w.paths.len() > MAX_PATHS {
        Err(too_many_paths())
    } else if w.steps >= MAX_STEPS {
        Err("branch structure too complex to enumerate"@)
    } else {
        let w = WalkView { steps: w.steps + 1, ..w };
        let p = stmt_at(t, lo, hi);
        if p >= hi {
            Ok((w, seq![st]))
        } else {
            let e = node_end(t, p, hi);
            let beyond = later.push((e, hi));
            if t[p].kind == "return_statement"@ {
                Ok((w.ended(st, return_text(t, p, e, st)), Seq::empty()))
            } else if t[p].kind == "throw_statement"@ {
                Ok((w.ended(st, throw_text(t, p, e)), Seq::empty()))
            } else if t[p].kind == "local_variable_declaration"@ {
                let (locals, after) = declared(t, p + 1, e, w.locals, st);
                walk(t, terminals, e, hi, after, later, WalkView { locals, ..w })
            } else if t[p].kind == "expression_statement"@ {
                match first_named(t, p, e) {
                    Some((a, b)) => if is_terminal(t, a, b, terminals) {
                        Ok((w.ended(st, normalized(t[a].text)), Seq::empty()))
                    } else {
                        walk(t, terminals, e, hi, effect(t, a, b, st), later, w)
                    },
                    None => walk(t, terminals, e, hi, st, later, w),
                }
            } else if t[p].kind == "if_statement"@ {
                match child_in_role(t, p, e, "condition"@) {
                    None => Err("if without condition"@),
                    Some((c, d)) => match eval(t, c, d, w.atoms, st) {
                        Err(x) => Err(x),
                        Ok((atoms, outcomes)) => join(
                            t,
                            terminals,
                            e,
                            hi,
                            walk_branches(t, terminals, p, e, outcomes, 0, beyond, w.knowing(atoms)),
                            later,
                        ),
                    },
                }
            } else if t[p].kind == "block"@ {
                match walk(t, terminals, p + 1, e, st, beyond, w) {
                    Err(x) => Err(x),
                    Ok((w, ends)) => walk_each(t, terminals, e, hi, ends, 0, later, w),
                }
            } else if is_switch(t[p]) {
                match switch_model(t, p, e) {
                    Some(model) => join(
                        t,
                        terminals,
                        e,
                        hi,
                        walk_arms(t, terminals, p, e, model, 0, st, beyond, w),
                        later,
                    ),
                    None => walk(t, terminals, e, hi, st, later, w.passing(p, e, t)),
                }
            } else if is_unmodeled(t[p]) {
                walk(t, terminals, e, hi, st, later, w.passing(p, e, t))
            } else {
                walk(t, terminals, e, hi, st, later, w)
            }
        }
    }
}

/// Goes on with `lo..hi` where branches meet: their ends are merged first.
pub open spec fn join(
    t: Seq<NodeView>,
    terminals: Seq<Seq<char>>,
    lo: int,
    hi: int,
    branches: Result<(WalkView, Seq<StateView>), Seq<char>>,
    later: Seq<(int, int)>,
) -> Result<(WalkView, Seq<StateView>), Seq<char>>
    decreases hi - lo, 5nat, 0int,
{
    match branches {
        Err(x) => Err(x),
        Ok((w, ends)) => {
            let merged = merged_states(ends, open_conditions(t, w.atoms, later.push((lo, hi))));
            if merged.len() + w.paths.len() > MAX_PATHS {
                Err(too_many_paths())
            } else {
                walk_each(t, terminals, lo, hi, merged, 0, later, w)
            }
        },
    }
}

/// Walks the branches of the conditional `lo..hi` for the outcomes `i` onwards.
pub open spec fn walk_branches(
    t: Seq<NodeView>,
    terminals: Seq<Seq<char>>,
    lo: int,
    hi: int,
    outcomes: Seq<(StateView, bool)>,
    i: int,
    later: Seq<(int, int)>,
    w: WalkView,
) -> Result<(WalkView, Seq<StateView>), Seq<char>>
    decreases hi - lo, 1nat, outcomes.len() - i,
{
    if i >= outcomes.len() {
        Ok((w, Seq::empty()))
    } else {
        let (st, value) = outcomes[i];
        let role = if value {
            "consequence"@
        } else {
            "alternative"@
        };
        let first = match child_in_role(t, lo, hi, role) {
            Some((a, b)) => if t[a].kind == "block"@ {
                walk(t, terminals, a + 1, b, st, later, w)
            } else {
                walk(t, terminals, a, b, st, later, w)
            },
            None => Ok((w, seq![st])),
        };
        match first {
            Err(x) => Err(x),
            Ok((w, ends)) => before_states(ends, walk_branches(t, terminals, lo, hi, outcomes, i + 1, later, w)),
        }
    }
}

/// Walks `lo..hi` from each of the states `i` onwards.
pub open spec fn walk_each(
    t: Seq<NodeView>,
    terminals: Seq<Seq<char>>,
    lo: int,
    hi: int,
    states: Seq<StateView>,
    i: int,
    later: Seq<(int, int)>,
    w: WalkView,
) -> Result<(WalkView, Seq<StateView>), Seq<char>>
    decreases hi - lo, 4nat, states.len() - i,
{
    if i >= states.len() {
        Ok((w, Seq::empty()))
    } else {
        match walk(t, terminals, lo, hi, states[i], later, w) {
            Err(x) => Err(x),
            Ok((w, ends)) => before_states(ends, walk_each(t, terminals, lo, hi, states, i + 1, later, w)),
        }
    }
}

/// The conditions that the cases stand for.
pub open spec fn arm_labels(arms: Seq<ArmView>) -> Seq<Seq<char>> {
    arms.map_values(|a: ArmView| a.label)
}

/// Walks the cases `i` onwards of the switch `lo..hi`: a case is entered when
/// all before it were compared in vain. At the end comes the default.
pub open spec fn walk_arms(
    t: Seq<NodeView>,
    terminals: Seq<Seq<char>>,
    lo: int,
    hi: int,
    model: SwitchView,
    i: int,
    st: StateView,
    later: Seq<(int, int)>,
    w: WalkView,
) -> Result<(WalkView, Seq<StateView>), Seq<char>>
    decreases hi - lo, 1nat, model.arms.len() - i,
{
    let labels = arm_labels(model.arms);
    if i < 0 || i >= model.arms.len() {
        match assign_false(MAX_ATOMS, w.atoms, st.conds, labels, 0) {
            Err(x) => Err(x),
            Ok((atoms, None)) => Ok((w.knowing(atoms), Seq::empty())),
            Ok((atoms, Some(conds))) => match model.default {
                Some((a, b)) => if lo < a <= b <= hi {
                    walk(t, terminals, a, b, st.with_conds(conds), later, w.knowing(atoms))
                } else {
                    Ok((w.knowing(atoms), seq![st.with_conds(conds)]))
                },
                None => Ok((w.knowing(atoms), seq![st.with_conds(conds)])),
            },
        }
    } else {
        let arm = model.arms[i];
        match enter(w.atoms, st.conds, labels.take(i), arm.label) {
            Err(x) => Err(x),
            Ok((atoms, None)) => walk_arms(t, terminals, lo, hi, model, i + 1, st, later, w.knowing(atoms)),
            Ok((atoms, Some(conds))) => if lo < arm.lo <= arm.hi <= hi {
                match walk(t, terminals, arm.lo, arm.hi, st.with_conds(conds), later, w.knowing(atoms)) {
                    Err(x) => Err(x),
                    Ok((w, ends)) => before_states(
                        ends,
                        walk_arms(t, terminals, lo, hi, model, i + 1, st, later, w),
                    ),
                }
            } else {
                before_states(
                    seq![st.with_conds(conds)],
                    walk_arms(t, terminals, lo, hi, model, i + 1, st, later, w.knowing(atoms)),
                )
            },
        }
    }
}

/// Pins earlier conditions to false and one to true.
pub open spec fn enter(
    atoms: Seq<Seq<char>>,
    conds: Seq<(usize, bool)>,
    earlier: Seq<Seq<char>>,
    label: Seq<char>,
) -> Result<(Seq<Seq<char>>, Option<Seq<(usize, bool)>>), Seq<char>> {
    match assign_false(MAX_ATOMS, atoms, conds, earlier, 0) {
        Err(x) => Err(x),
        Ok((atoms, None)) => Ok((atoms, None)),
        Ok((atoms, Some(conds))) => assign(MAX_ATOMS, atoms, conds, label, true),
    }
}

pub open spec fn spans(v: Seq<(usize, usize)>) -> Seq<(int, int)> {
    v.map_values(|p: (usize, usize)| (p.0 as int, p.1 as int))
}

/// Ranges that lie inside a tree of `n` nodes.
pub open spec fn spans_inside(v: Seq<(usize, usize)>, n: nat) -> bool {
    forall|i: int| 0 <= i < v.len() ==> (#[trigger] v[i]).0 <= v[i].1 <= n
}

pub open spec fn walk_result(w: Walker, r: Result<Vec<SymState>, String>) -> Result<
    (WalkView, Seq<StateView>),
    Seq<char>,
> {
    match r {
        Ok(v) => Ok((w@, state_views(v@))),
        Err(e) => Err(e@),
    }
}

fn with_span(later: &Vec<(usize, usize)>, lo: usize, hi: usize) -> (r: Vec<(usize, usize)>)
    ensures
        spans(r@) == spans(later@).push((lo as int, hi as int)),
        forall|n: nat| lo <= hi <= n && spans_inside(later@, n) ==> #[trigger] spans_inside(r@, n),
{
    let mut r: Vec<(usize, usize)> = Vec::new();
    let mut i: usize = 0;
    while i < later.len()
        invariant
            i <= later@.len(),
            r@ == later@.take(i as int),
        decreases later.len() - i,
    {
        let (a, b) = later[i];
        r.push((a, b));
        i = i + 1;
        assert(r@ =~= later@.take(i as int));
    }
    assert(r@ =~= later@);
    r.push((lo, hi));
    assert(spans(r@) =~= spans(later@).push((lo as int, hi as int)));
    r
}

fn open_flags(tree: &SyntaxTree, atoms: &Vec<String>, later: &Vec<(usize, usize)>) -> (r: Vec<bool>)
    requires
        spans_inside(later@, tree@.len()),
    ensures
        r@ == open_conditions(tree@, texts(atoms@), spans(later@)),
{
    let ghost t = tree@;
    let ghost names = texts(atoms@);
    let ghost all = spans(later@);
    let mut r: Vec<bool> = Vec::new();
    let mut k: usize = 0;
    while k < atoms.len()
        invariant
            spans_inside(later@, tree@.len()),
            t == tree@,
            names == texts(atoms@),
            all == spans(later@),
            k <= atoms@.len(),
            r@.len() == k,
            forall|j: int| 0 <= j < k ==> r@[j] == tested_later(t, #[trigger] names[j], all),
        decreases atoms.len() - k,
    {
        let mut found: bool = false;
        let mut i: usize = 0;
        while i < later.len() && !found
            invariant
                spans_inside(later@, tree@.len()),
                t == tree@,
                names == texts(atoms@),
                all == spans(later@),
                k < atoms@.len(),
                i <= later@.len(),
                found ==> tested_later(t, names[k as int], all),
                !found ==> forall|j: int|
                    0 <= j < i ==> !tested_in(t, (#[trigger] all[j]).0, all[j].1, names[k as int]),
            decreases later.len() - i,
        {
            let (lo, hi) = later[i];
            assert(all[i as int] == (lo as int, hi as int));
            assert(names[k as int] == atoms@[k as int]@);
            if tree.tests(lo, hi, atoms[k].as_str()) {
                found = true;
            }
            i = i + 1;
        }
        r.push(found);
        k = k + 1;
    }
    assert(r@ =~= open_conditions(t, names, all));
    r
}

fn returned(tree: &SyntaxTree, lo: usize, hi: usize, state: &SymState) -> (r: String)
    requires
        lo < hi <= tree@.len(),
    ensures
        r@ == return_text(tree@, lo as int, hi as int, state@),
{
    match tree.first_named_child(lo, hi) {
        Some((a, _)) => {
            let expr = tree.collapsed(a);
            let mut r = "return ".to_owned();
            if tree.is_kind(a, "identifier") {
                match state.value_of(expr.as_str()) {
                    Some(v) => {
                        r.append(v.as_str());
                        return r;
                    },
                    None => {},
                }
            }
            r.append(expr.as_str());
            r
        },
        None => "return".to_owned(),
    }
}

fn thrown(tree: &SyntaxTree, lo: usize, hi: usize) -> (r: String)
    requires
        lo < hi <= tree@.len(),
    ensures
        r@ == throw_text(tree@, lo as int, hi as int),
{
    let mut r = "throw ".to_owned();
    match tree.first_named_child(lo, hi) {
        Some((a, _)) => {
            r.append(tree.collapsed(a).as_str());
        },
        None => {},
    }
    r
}

fn declare(tree: &SyntaxTree, lo: usize, hi: usize, locals: &mut TextSet, state: SymState) -> (r: SymState)
    requires
        lo <= hi <= tree@.len(),
    ensures
        (final(locals).texts(), r@) == declared(tree@, lo as int, hi as int, old(locals).texts(), state@),
{
    let ghost t = tree@;
    let ghost all = declared(t, lo as int, hi as int, locals.texts(), state@);
    let mut state = state;
    let mut i: usize = lo;
    while i < hi
        invariant
            lo <= i <= hi <= tree@.len(),
            t == tree@,
            all == declared(t, i as int, hi as int, locals.texts(), state@),
        decreases hi - i,
    {
        let end: usize = tree.end_of(i, hi);
        if tree.is_named(i) && tree.is_kind(i, "variable_declarator") {
            match tree.child(i, end, "name") {
                Some((a, _)) => {
                    let name = tree.collapsed(a);
                    locals.add_text(name.clone());
                    match tree.child(i, end, "value") {
                        Some((b, _)) => {
                            state.write(name, tree.collapsed(b));
                        },
                        None => {},
                    }
                },
                None => {},
            }
        }
        i = end;
    }
    state
}

proof fn lemma_before_states(
    done: Seq<StateView>,
    more: Seq<StateView>,
    rest: Result<(WalkView, Seq<StateView>), Seq<char>>,
)
    ensures
        before_states(done, before_states(more, rest)) == before_states(done + more, rest),
        before_states(Seq::empty(), rest) == rest,
{
    match rest {
        Ok((w, ends)) => {
            assert(done + (more + ends) =~= (done + more) + ends);
            assert(Seq::<StateView>::empty() + ends =~= ends);
        },
        Err(_) => {},
    }
}

proof fn lemma_join_error(
    t: Seq<NodeView>,
    terminals: Seq<Seq<char>>,
    lo: int,
    hi: int,
    e: Seq<char>,
    later: Seq<(int, int)>,
)
    ensures
        join(t, terminals, lo, hi, Err::<(WalkView, Seq<StateView>), Seq<char>>(e), later) == Err::<
            (WalkView, Seq<StateView>),
            Seq<char>,
        >(e),
{
}

/// Adds the ends of one more branch.
fn add_ends(ends: &mut Vec<SymState>, more: Vec<SymState>)
    ensures
        state_views(final(ends)@) == state_views(old(ends)@) + state_views(more@),
{
    let ghost a = ends@;
    let ghost b = more@;
    let mut more = more;
    ends.append(&mut more);
    assert(ends@ =~= a + b);
    assert(state_views(ends@) =~= state_views(a) + state_views(b));
}

fn one_state(state: SymState) -> (r: Vec<SymState>)
    ensures
        state_views(r@) == seq![state@],
{
    let ghost st = state@;
    let mut r: Vec<SymState> = Vec::new();
    r.push(state);
    assert(state_views(r@) =~= seq![st]);
    r
}

fn no_states() -> (r: Vec<SymState>)
    ensures
        state_views(r@) == Seq::<StateView>::empty(),
{
    let r: Vec<SymState> = Vec::new();
    assert(state_views(r@) =~= Seq::<StateView>::empty());
    r
}

impl Walker {
    fn end_path(&mut self, state: SymState, outcome: String)
        ensures
            final(self)@ == old(self)@.ended(state@, outcome@),
    {
        let ghost before = path_views(self.paths@);
        let ghost last = (state@, outcome@);
        self.paths.push((state, outcome));
        assert(path_views(self.paths@) =~= before.push(last));
    }

    /// Walks the statements `lo..hi` from a state.
    #[verifier::rlimit(60)]
    pub fn walk_statements(
        &mut self,
        tree: &SyntaxTree,
        terminals: &Vec<String>,
        lo: usize,
        hi: usize,
        state: SymState,
        later: &Vec<(usize, usize)>,
    ) -> (r: Result<Vec<SymState>, String>)
        requires
            lo <= hi <= tree@.len(),
            spans_inside(later@, tree@.len()),
        ensures
            walk_result(*final(self), r) == walk(
                tree@,
                texts(terminals@),
                lo as int,
                hi as int,
                state@,
                spans(later@),
                old(self)@,
            ),
        decreases hi - lo, 3nat, 0int,
    {
        assert(self@.paths.len() == self.paths@.len());
        if self.paths.len() > MAX_PATHS {
            return Err(too_many(MAX_PATHS, " paths"));
        }
        if self.steps >= MAX_STEPS {
            return Err("branch structure too complex to enumerate".to_owned());
        }
        self.steps = self.steps + 1;
        let ghost w = WalkView { steps: old(self)@.steps + 1, ..old(self)@ };
        assert(self@ =~= w);
        let p: usize = tree.statement_from(lo, hi);
        if p >= hi {
            return Ok(one_state(state));
        }
        let e: usize = tree.end_of(p, hi);
        if tree.is_kind(p, "return_statement") {
            let outcome = returned(tree, p, e, &state);
            self.end_path(state, outcome);
            Ok(no_states())
        } else if tree.is_kind(p, "throw_statement") {
            self.end_path(state, thrown(tree, p, e));
            Ok(no_states())
        } else if tree.is_kind(p, "local_variable_declaration") {
            let after = declare(tree, p + 1, e, &mut self.locals, state);
            assert(self@ =~= WalkView { locals: self.locals.texts(), ..w });
            self.walk_statements(tree, terminals, e, hi, after, later)
        } else if tree.is_kind(p, "expression_statement") {
            let mut state = state;
            match tree.first_named_child(p, e) {
                Some((a, b)) => {
                    if is_terminal_call(tree, a, b, terminals) {
                        self.end_path(state, tree.collapsed(a));
                        return Ok(no_states());
                    }
                    record_write(tree, a, b, &mut state);
                },
                None => {},
            }
            self.walk_statements(tree, terminals, e, hi, state, later)
        } else if tree.is_kind(p, "if_statement") {
            match tree.child(p, e, "condition") {
                None => Err("if without condition".to_owned()),
                Some((c, d)) => {
                    let outcomes = match evaluate(tree, c, d, &mut self.atoms, state) {
                        Ok(outcomes) => outcomes,
                        Err(x) => {
                            return Err(x);
                        },
                    };
                    assert(self@ =~= w.knowing(texts(self.atoms@)));
                    let beyond = with_span(later, e, hi);
                    match self.walk_outcomes(tree, terminals, p, e, outcomes, &beyond) {
                        Ok(ends) => self.join_ends(tree, terminals, e, hi, ends, later),
                        Err(x) => {
                            proof {
                                lemma_join_error(tree@, texts(terminals@), e as int, hi as int, x@, spans(later@));
                            }
                            Err(x)
                        },
                    }
                },
            }
        } else if tree.is_kind(p, "block") {
            let beyond = with_span(later, e, hi);
            match self.walk_statements(tree, terminals, p + 1, e, state, &beyond) {
                Ok(ends) => self.walk_from_each(tree, terminals, e, hi, ends, later),
                Err(x) => Err(x),
            }
        } else if tree.is_kind(p, "switch_expression") || tree.is_kind(p, "switch_statement") {
            match read_switch(tree, p, e) {
                Some(model) => {
                    let beyond = with_span(later, e, hi);
                    match self.walk_cases(tree, terminals, p, e, &model, state, &beyond) {
                        Ok(ends) => self.join_ends(tree, terminals, e, hi, ends, later),
                        Err(x) => {
                            proof {
                                lemma_join_error(tree@, texts(terminals@), e as int, hi as int, x@, spans(later@));
                            }
                            Err(x)
                        },
                    }
                },
                None => {
                    if tree.contains_exit(p, e) {
                        self.incomplete = true;
                    }
                    assert(self@ =~= w.passing(p as int, e as int, tree@));
                    self.walk_statements(tree, terminals, e, hi, state, later)
                },
            }
        } else {
            let unmodeled: bool = tree.is_kind(p, "while_statement") || tree.is_kind(p, "for_statement")
                || tree.is_kind(p, "enhanced_for_statement") || tree.is_kind(p, "do_statement") || tree.is_kind(
                p,
                "try_statement",
            ) || tree.is_kind(p, "try_with_resources_statement") || tree.is_kind(p, "synchronized_statement")
                || tree.is_kind(p, "labeled_statement");
            if unmodeled && tree.contains_exit(p, e) {
                self.incomplete = true;
            }
            assert(unmodeled == is_unmodeled(tree@[p as int]));
            assert(self@ =~= if unmodeled {
                w.passing(p as int, e as int, tree@)
            } else {
                w
            });
            self.walk_statements(tree, terminals, e, hi, state, later)
        }
    }

    /// Goes on where branches meet.
    fn join_ends(
        &mut self,
        tree: &SyntaxTree,
        terminals: &Vec<String>,
        lo: usize,
        hi: usize,
        ends: Vec<SymState>,
        later: &Vec<(usize, usize)>,
    ) -> (r: Result<Vec<SymState>, String>)
        requires
            lo <= hi <= tree@.len(),
            spans_inside(later@, tree@.len()),
        ensures
            walk_result(*final(self), r) == join(
                tree@,
                texts(terminals@),
                lo as int,
                hi as int,
                Ok::<(WalkView, Seq<StateView>), Seq<char>>((old(self)@, state_views(ends@))),
                spans(later@),
            ),
        decreases hi - lo, 5nat, 0int,
    {
        let beyond = with_span(later, lo, hi);
        let open = open_flags(tree, &self.atoms, &beyond);
        let merged = merge_states(ends, &open);
        assert(self@.paths.len() == self.paths@.len());
        assert(state_views(merged@).len() == merged@.len());
        if self.paths.len() > MAX_PATHS || merged.len() > MAX_PATHS - self.paths.len() {
            return Err(too_many(MAX_PATHS, " paths"));
        }
        self.walk_from_each(tree, terminals, lo, hi, merged, later)
    }

    /// Walks the branches of a conditional.
    fn walk_outcomes(
        &mut self,
        tree: &SyntaxTree,
        terminals: &Vec<String>,
        lo: usize,
        hi: usize,
        outcomes: Vec<(SymState, bool)>,
        later: &Vec<(usize, usize)>,
    ) -> (r: Result<Vec<SymState>, String>)
        requires
            lo < hi <= tree@.len(),
            spans_inside(later@, tree@.len()),
        ensures
            walk_result(*final(self), r) == walk_branches(
                tree@,
                texts(terminals@),
                lo as int,
                hi as int,
                forks(outcomes@),
                0,
                spans(later@),
                old(self)@,
            ),
        decreases hi - lo, 1nat, 1int,
    {
        let ghost t = tree@;
        let ghost names = texts(terminals@);
        let ghost all = forks(outcomes@);
        let ghost total = walk_branches(t, names, lo as int, hi as int, all, 0, spans(later@), self@);
        let mut r = no_states();
        let mut i: usize = 0;
        proof {
            lemma_before_states(Seq::empty(), Seq::empty(), total);
        }
        while i < outcomes.len()
            invariant
                lo < hi <= tree@.len(),
                spans_inside(later@, tree@.len()),
                t == tree@,
                names == texts(terminals@),
                all == forks(outcomes@),
                i <= outcomes@.len(),
                total == walk_branches(t, names, lo as int, hi as int, all, 0, spans(later@), old(self)@),
                total == before_states(
                    state_views(r@),
                    walk_branches(t, names, lo as int, hi as int, all, i as int, spans(later@), self@),
                ),
            decreases hi - lo, 1nat, 0int, outcomes.len() - i,
        {
            assert(all[i as int] == (outcomes@[i as int].0@, outcomes@[i as int].1));
            let state = outcomes[i].0.copied();
            let role = if outcomes[i].1 {
                "consequence"
            } else {
                "alternative"
            };
            let more = match tree.child(lo, hi, role) {
                Some((a, b)) => {
                    let from: usize = if tree.is_kind(a, "block") {
                        a + 1
                    } else {
                        a
                    };
                    match self.walk_statements(tree, terminals, from, b, state, later) {
                        Ok(more) => more,
                        Err(x) => {
                            return Err(x);
                        },
                    }
                },
                None => one_state(state),
            };
            proof {
                lemma_before_states(
                    state_views(r@),
                    state_views(more@),
                    walk_branches(t, names, lo as int, hi as int, all, i + 1, spans(later@), self@),
                );
            }
            add_ends(&mut r, more);
            i = i + 1;
        }
        assert(state_views(r@) + Seq::<StateView>::empty() =~= state_views(r@));
        Ok(r)
    }

    /// Walks `lo..hi` from each of some states.
    fn walk_from_each(
        &mut self,
        tree: &SyntaxTree,
        terminals: &Vec<String>,
        lo: usize,
        hi: usize,
        states: Vec<SymState>,
        later: &Vec<(usize, usize)>,
    ) -> (r: Result<Vec<SymState>, String>)
        requires
            lo <= hi <= tree@.len(),
            spans_inside(later@, tree@.len()),
        ensures
            walk_result(*final(self), r) == walk_each(
                tree@,
                texts(terminals@),
                lo as int,
                hi as int,
                state_views(states@),
                0,
                spans(later@),
                old(self)@,
            ),
        decreases hi - lo, 4nat, 1int,
    {
        let ghost t = tree@;
        let ghost names = texts(terminals@);
        let ghost all = state_views(states@);
        let ghost total = walk_each(t, names, lo as int, hi as int, all, 0, spans(later@), self@);
        let mut r = no_states();
        let mut i: usize = 0;
        proof {
            lemma_before_states(Seq::empty(), Seq::empty(), total);
        }
        while i < states.len()
            invariant
                lo <= hi <= tree@.len(),
                spans_inside(later@, tree@.len()),
                t == tree@,
                names == texts(terminals@),
                all == state_views(states@),
                i <= states@.len(),
                total == walk_each(t, names, lo as int, hi as int, all, 0, spans(later@), old(self)@),
                total == before_states(
                    state_views(r@),
                    walk_each(t, names, lo as int, hi as int, all, i as int, spans(later@), self@),
                ),
            decreases hi - lo, 4nat, 0int, states.len() - i,
        {
            assert(all[i as int] == states@[i as int]@);
            let more = match self.walk_statements(tree, terminals, lo, hi, states[i].copied(), later) {
                Ok(more) => more,
                Err(x) => {
                    return Err(x);
                },
            };
            proof {
                lemma_before_states(
                    state_views(r@),
                    state_views(more@),
                    walk_each(t, names, lo as int, hi as int, all, i + 1, spans(later@), self@),
                );
            }
            add_ends(&mut r, more);
            i = i + 1;
        }
        assert(state_views(r@) + Seq::<StateView>::empty() =~= state_views(r@));
        Ok(r)
    }

    /// Walks the cases of a switch.
    #[verifier::rlimit(40)]
    fn walk_cases(
        &mut self,
        tree: &SyntaxTree,
        terminals: &Vec<String>,
        lo: usize,
        hi: usize,
        model: &SwitchModel,
        state: SymState,
        later: &Vec<(usize, usize)>,
    ) -> (r: Result<Vec<SymState>, String>)
        requires
            lo < hi <= tree@.len(),
            spans_inside(later@, tree@.len()),
            arms_inside(model.arms@, lo as int, hi as int),
            model.default matches Some((a, b)) ==> lo < a <= b <= hi,
        ensures
            walk_result(*final(self), r) == walk_arms(
                tree@,
                texts(terminals@),
                lo as int,
                hi as int,
                model@,
                0,
                state@,
                spans(later@),
                old(self)@,
            ),
        decreases hi - lo, 1nat, 1int,
    {
        let ghost t = tree@;
        let ghost names = texts(terminals@);
        let ghost mv = model@;
        let ghost st = state@;
        let ghost labels = arm_labels(mv.arms);
        let ghost total = walk_arms(t, names, lo as int, hi as int, mv, 0, st, spans(later@), self@);
        let mut seen: Vec<String> = Vec::new();
        let mut r = no_states();
        let mut i: usize = 0;
        proof {
            lemma_before_states(Seq::empty(), Seq::empty(), total);
            assert(texts(seen@) =~= labels.take(0));
        }
        while i < model.arms.len()
            invariant
                lo < hi <= tree@.len(),
                spans_inside(later@, tree@.len()),
                arms_inside(model.arms@, lo as int, hi as int),
                t == tree@,
                names == texts(terminals@),
                mv == model@,
                st == state@,
                labels == arm_labels(mv.arms),
                i <= model.arms@.len(),
                texts(seen@) == labels.take(i as int),
                total == walk_arms(t, names, lo as int, hi as int, mv, 0, st, spans(later@), old(self)@),
                total == before_states(
                    state_views(r@),
                    walk_arms(t, names, lo as int, hi as int, mv, i as int, st, spans(later@), self@),
                ),
            decreases hi - lo, 1nat, 0int, model.arms.len() - i,
        {
            let arm = &model.arms[i];
            assert(mv.arms[i as int] == arm@);
            assert(labels[i as int] == arm.label@);
            let ghost earlier = texts(seen@);
            let entered = match pin_false(MAX_ATOMS, &mut self.atoms, &state.conds, &seen) {
                Ok(Some(conds)) => pin(MAX_ATOMS, &mut self.atoms, conds, arm.label.as_str(), true),
                Ok(None) => Ok(None),
                Err(x) => Err(x),
            };
            match entered {
                Err(x) => {
                    return Err(x);
                },
                Ok(None) => {},
                Ok(Some(conds)) => {
                    let mut branch = state.copied();
                    branch.conds = conds;
                    assert(branch@ =~= st.with_conds(conds@));
                    let more = match self.walk_statements(tree, terminals, arm.lo, arm.hi, branch, later) {
                        Ok(more) => more,
                        Err(x) => {
                            return Err(x);
                        },
                    };
                    proof {
                        lemma_before_states(
                            state_views(r@),
                            state_views(more@),
                            walk_arms(t, names, lo as int, hi as int, mv, i + 1, st, spans(later@), self@),
                        );
                    }
                    add_ends(&mut r, more);
                },
            }
            seen.push(arm.label.clone());
            i = i + 1;
            assert(texts(seen@) =~= earlier.push(labels[i - 1]));
            assert(texts(seen@) =~= labels.take(i as int));
        }
        assert(labels.take(i as int) =~= labels);
        match pin_false(MAX_ATOMS, &mut self.atoms, &state.conds, &seen) {
            Err(x) => Err(x),
            Ok(None) => {
                assert(state_views(r@) + Seq::<StateView>::empty() =~= state_views(r@));
                Ok(r)
            },
            Ok(Some(conds)) => {
                let mut fallback = state;
                fallback.conds = conds;
                assert(fallback@ =~= st.with_conds(conds@));
                let more = match model.default {
                    Some((a, b)) => match self.walk_statements(tree, terminals, a, b, fallback, later) {
                        Ok(more) => more,
                        Err(x) => {
                            return Err(x);
                        },
                    },
                    None => one_state(fallback),
                };
                add_ends(&mut r, more);
                Ok(r)
            },
        }
    }
}

} // verus!
