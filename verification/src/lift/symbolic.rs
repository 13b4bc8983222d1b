//! Symbolic execution of Java conditions and statements along one path.

use vstd::prelude::*;

use crate::lift::syntax::{child_in_role, first_named, text_in_role, NodeView, SyntaxTree};
use crate::lift::tag_paths::{atom_id, copy_conds, find_pinned, intern, pinned};
use crate::text::{
    at_most, chars_of, contains_text, copy_texts, lex_le, lowercase, normalized, same, string_of, texts,
};

verus! {

/// The most distinct conditions of a method whose paths are followed.
pub const MAX_ATOMS: usize = 64;

/// What is known on a path: the conditions it pins, the last value written
/// to each target, and the calls made. Targets and calls are kept in order.
#[derive(Debug)]
pub struct SymState {
    pub conds: Vec<(usize, bool)>,
    pub writes: Vec<(String, String)>,
    pub calls: Vec<String>,
}

#[verifier::ext_equal]
pub struct StateView {
    pub conds: Seq<(usize, bool)>,
    pub writes: Seq<(Seq<char>, Seq<char>)>,
    pub calls: Seq<Seq<char>>,
}

pub open spec fn pairs(v: Seq<(String, String)>) -> Seq<(Seq<char>, Seq<char>)> {
    v.map_values(|p: (String, String)| (p.0@, p.1@))
}

impl View for SymState {
    type V = StateView;

    open spec fn view(&self) -> StateView {
        StateView { conds: self.conds@, writes: pairs(self.writes@), calls: texts(self.calls@) }
    }
}

impl StateView {
    pub open spec fn start() -> Self {
        StateView { conds: Seq::empty(), writes: Seq::empty(), calls: Seq::empty() }
    }

    pub open spec fn with_conds(self, conds: Seq<(usize, bool)>) -> Self {
        StateView { conds, writes: self.writes, calls: self.calls }
    }
}

/// The first position from `i` on whose target is not before the key.
pub open spec fn write_slot(writes: Seq<(Seq<char>, Seq<char>)>, key: Seq<char>, i: int) -> int
    decreases writes.len() - i,
{
    if i >= writes.len() || lex_le(key, writes[i].0) {
        i
    } else {
        write_slot(writes, key, i + 1)
    }
}

/// The writes after one more; a target keeps its last value only.
pub open spec fn with_write(writes: Seq<(Seq<char>, Seq<char>)>, key: Seq<char>, value: Seq<char>) -> Seq<
    (Seq<char>, Seq<char>),
> {
    let i = write_slot(writes, key, 0);
    if i < writes.len() && writes[i].0 == key {
        writes.update(i, (key, value))
    } else {
        writes.insert(i, (key, value))
    }
}

/// The last value written to a target.
pub open spec fn written(writes: Seq<(Seq<char>, Seq<char>)>, key: Seq<char>) -> Option<Seq<char>> {
    let i = write_slot(writes, key, 0);
    if i < writes.len() && writes[i].0 == key {
        Some(writes[i].1)
    } else {
        None
    }
}

pub open spec fn call_slot(calls: Seq<Seq<char>>, call: Seq<char>, i: int) -> int
    decreases calls.len() - i,
{
    if i >= calls.len() || lex_le(call, calls[i]) {
        i
    } else {
        call_slot(calls, call, i + 1)
    }
}

/// The calls after one more; a repeated call counts once.
pub open spec fn with_call(calls: Seq<Seq<char>>, call: Seq<char>) -> Seq<Seq<char>> {
    let i = call_slot(calls, call, 0);
    if i < calls.len() && calls[i] == call {
        calls
    } else {
        calls.insert(i, call)
    }
}

proof fn lemma_write_slot(writes: Seq<(Seq<char>, Seq<char>)>, key: Seq<char>, i: int)
    requires
        0 <= i <= writes.len(),
    ensures
        i <= write_slot(writes, key, i) <= writes.len(),
    decreases writes.len() - i,
{
    if i < writes.len() && !lex_le(key, writes[i].0) {
        lemma_write_slot(writes, key, i + 1);
    }
}

proof fn lemma_call_slot(calls: Seq<Seq<char>>, call: Seq<char>, i: int)
    requires
        0 <= i <= calls.len(),
    ensures
        i <= call_slot(calls, call, i) <= calls.len(),
    decreases calls.len() - i,
{
    if i < calls.len() && !lex_le(call, calls[i]) {
        lemma_call_slot(calls, call, i + 1);
    }
}

pub fn copy_pairs(v: &Vec<(String, String)>) -> (r: Vec<(String, String)>)
    ensures
        pairs(r@) == pairs(v@),
{
    let mut r: Vec<(String, String)> = Vec::new();
    let mut i: usize = 0;
    while i < v.len()
        invariant
            i <= v@.len(),
            pairs(r@) == pairs(v@).take(i as int),
        decreases v.len() - i,
    {
        let ghost before = pairs(r@);
        r.push((v[i].0.clone(), v[i].1.clone()));
        i = i + 1;
        assert(pairs(r@) =~= before.push(pairs(v@)[i - 1]));
        assert(pairs(r@) =~= pairs(v@).take(i as int));
    }
    assert(pairs(v@).take(i as int) =~= pairs(v@));
    r
}

impl SymState {
    /// A path that has just begun.
    pub fn new() -> (r: Self)
        ensures
            r@ == StateView::start(),
    {
        let r = SymState { conds: Vec::new(), writes: Vec::new(), calls: Vec::new() };
        assert(r@ =~= StateView::start());
        r
    }

    pub fn copied(&self) -> (r: Self)
        ensures
            r@ == self@,
    {
        SymState {
            conds: copy_conds(&self.conds),
            writes: copy_pairs(&self.writes),
            calls: copy_texts(self.calls.as_slice()),
        }
    }

    /// The position of the first target that is not before the key.
    fn slot(&self, key: &str) -> (r: usize)
        ensures
            r == write_slot(self@.writes, key@, 0),
            r <= self.writes@.len(),
    {
        let ghost w = self@.writes;
        let mut i: usize = 0;
        while i < self.writes.len()
            invariant
                i <= self.writes@.len(),
                w == pairs(self.writes@),
                write_slot(w, key@, 0) == write_slot(w, key@, i as int),
            decreases self.writes.len() - i,
        {
            assert(w[i as int].0 == self.writes@[i as int].0@);
            if at_most(key, self.writes[i].0.as_str()) {
                return i;
            }
            i = i + 1;
        }
        i
    }

    /// Records a write.
    pub fn write(&mut self, key: String, value: String)
        ensures
            final(self)@ == (StateView { writes: with_write(old(self)@.writes, key@, value@), ..old(self)@ }),
    {
        let ghost w = self@.writes;
        let i: usize = self.slot(key.as_str());
        let ghost before = self.writes@;
        if i < self.writes.len() && same(self.writes[i].0.as_str(), key.as_str()) {
            assert(w[i as int].0 == before[i as int].0@);
            self.writes.set(i, (key, value));
            assert(pairs(self.writes@) =~= w.update(i as int, (key@, value@)));
        } else {
            assert(i < w.len() ==> w[i as int].0 == before[i as int].0@);
            self.writes.insert(i, (key, value));
            assert(pairs(self.writes@) =~= w.insert(i as int, (key@, value@)));
        }
    }

    /// The last value written to a target.
    pub fn value_of(&self, key: &str) -> (r: Option<String>)
        ensures
            crate::lines::opt_text(r) == written(self@.writes, key@),
    {
        let i: usize = self.slot(key);
        assert(i < self.writes@.len() ==> self@.writes[i as int] == (
            self.writes@[i as int].0@,
            self.writes@[i as int].1@,
        ));
        if i < self.writes.len() && same(self.writes[i].0.as_str(), key) {
            Some(self.writes[i].1.clone())
        } else {
            None
        }
    }

    /// Records a call.
    pub fn call(&mut self, call: String)
        ensures
            final(self)@ == (StateView { calls: with_call(old(self)@.calls, call@), ..old(self)@ }),
    {
        let ghost c = self@.calls;
        let mut i: usize = 0;
        while i < self.calls.len() && !at_most(call.as_str(), self.calls[i].as_str())
            invariant
                i <= self.calls@.len(),
                c == texts(self.calls@),
                self == old(self),
                call_slot(c, call@, 0) == call_slot(c, call@, i as int),
            decreases self.calls.len() - i,
        {
            assert(c[i as int] == self.calls@[i as int]@);
            i = i + 1;
        }
        assert(i < c.len() ==> c[i as int] == self.calls@[i as int]@);
        if i < self.calls.len() && same(self.calls[i].as_str(), call.as_str()) {
            return ;
        }
        self.calls.insert(i, call);
        assert(texts(self.calls@) =~= c.insert(i as int, call@));
    }
}

/// The outcomes of a condition, each with the path on which it comes.
pub open spec fn forks(v: Seq<(SymState, bool)>) -> Seq<(StateView, bool)> {
    v.map_values(|p: (SymState, bool)| (p.0@, p.1))
}

/// The outcomes with their values inverted.
pub open spec fn inverted(v: Seq<(StateView, bool)>) -> Seq<(StateView, bool)> {
    v.map_values(|p: (StateView, bool)| (p.0, !p.1))
}

/// The outcomes of a condition that is not taken apart: its pinned value, or
/// both values.
pub open spec fn eval_atom(atoms: Seq<Seq<char>>, label: Seq<char>, st: StateView) -> Result<
    (Seq<Seq<char>>, Seq<(StateView, bool)>),
    Seq<char>,
> {
    match intern(MAX_ATOMS, atoms, label) {
        Err(e) => Err(e),
        Ok((atoms, id)) => match pinned(st.conds, id) {
            Some(v) => Ok((atoms, seq![(st, v)])),
            None => Ok(
                (
                    atoms,
                    seq![
                        (st.with_conds(st.conds.push((id, true))), true),
                        (st.with_conds(st.conds.push((id, false))), false),
                    ],
                ),
            ),
        },
    }
}

/// A binary expression whose operator is the given one.
pub open spec fn is_binary(t: Seq<NodeView>, lo: int, hi: int, operator: Seq<char>) -> bool {
    t[lo].kind == "binary_expression"@ && text_in_role(t, lo, hi, "operator"@) == operator
}

/// A negation.
pub open spec fn is_not(t: Seq<NodeView>, lo: int, hi: int) -> bool {
    t[lo].kind == "unary_expression"@ && text_in_role(t, lo, hi, "operator"@) == "!"@
}

/// The outcomes of the condition `lo..hi` on a path: `&&` and `||` are taken
/// apart with short-circuit evaluation, `!` inverts, and any other expression
/// is one condition, known by its text.
pub open spec fn eval(t: Seq<NodeView>, lo: int, hi: int, atoms: Seq<Seq<char>>, st: StateView) -> Result<
    (Seq<Seq<char>>, Seq<(StateView, bool)>),
    Seq<char>,
>
    decreases hi - lo, 0nat, 0int,
{
    let other = eval_atom(atoms, normalized(t[lo].text), st);
    if t[lo].kind == "parenthesized_expression"@ {
        match first_named(t, lo, hi) {
            Some((a, b)) => eval(t, a, b, atoms, st),
            None => other,
        }
    } else if is_not(t, lo, hi) {
        match child_in_role(t, lo, hi, "operand"@) {
            Some((a, b)) => match eval(t, a, b, atoms, st) {
                Ok((atoms, outcomes)) => Ok((atoms, inverted(outcomes))),
                Err(e) => Err(e),
            },
            None => other,
        }
    } else if is_binary(t, lo, hi, "&&"@) || is_binary(t, lo, hi, "||"@) {
        match (child_in_role(t, lo, hi, "left"@), child_in_role(t, lo, hi, "right"@)) {
            (Some((a, b)), Some((c, d))) => match eval(t, a, b, atoms, st) {
                Ok((atoms, outcomes)) => eval_right(t, c, d, atoms, outcomes, is_binary(t, lo, hi, "&&"@), 0),
                Err(e) => Err(e),
            },
            _ => other,
        }
    } else if t[lo].kind == "true"@ {
        Ok((atoms, seq![(st, true)]))
    } else if t[lo].kind == "false"@ {
        Ok((atoms, seq![(st, false)]))
    } else {
        other
    }
}

/// The outcomes `i` onwards of a left operand, each followed by those of the
/// right one where the left has the value `go_on`.
pub open spec fn eval_right(
    t: Seq<NodeView>,
    lo: int,
    hi: int,
    atoms: Seq<Seq<char>>,
    lefts: Seq<(StateView, bool)>,
    go_on: bool,
    i: int,
) -> Result<(Seq<Seq<char>>, Seq<(StateView, bool)>), Seq<char>>
    decreases hi - lo, 1nat, lefts.len() - i,
{
    if i >= lefts.len() {
        Ok((atoms, Seq::empty()))
    } else {
        let (st, value) = lefts[i];
        let first = if value == go_on {
            eval(t, lo, hi, atoms, st)
        } else {
            Ok((atoms, seq![(st, value)]))
        };
        match first {
            Err(e) => Err(e),
            Ok((atoms, outcomes)) => match eval_right(t, lo, hi, atoms, lefts, go_on, i + 1) {
                Err(e) => Err(e),
                Ok((atoms, rest)) => Ok((atoms, outcomes + rest)),
            },
        }
    }
}

pub open spec fn eval_result(atoms: Seq<String>, r: Result<Vec<(SymState, bool)>, String>) -> Result<
    (Seq<Seq<char>>, Seq<(StateView, bool)>),
    Seq<char>,
> {
    match r {
        Ok(v) => Ok((texts(atoms), forks(v@))),
        Err(e) => Err(e@),
    }
}

fn fork_on(atoms: &mut Vec<String>, label: &str, state: SymState) -> (r: Result<Vec<(SymState, bool)>, String>)
    ensures
        eval_result(final(atoms)@, r) == eval_atom(texts(old(atoms)@), label@, state@),
{
    let ghost st = state@;
    let id: usize = match atom_id(MAX_ATOMS, atoms, label) {
        Ok(id) => id,
        Err(e) => {
            return Err(e);
        },
    };
    let mut r: Vec<(SymState, bool)> = Vec::new();
    match find_pinned(&state.conds, id) {
        Some(v) => {
            r.push((state, v));
            assert(forks(r@) =~= seq![(st, v)]);
        },
        None => {
            let mut yes = state.copied();
            yes.conds.push((id, true));
            let mut no = state;
            no.conds.push((id, false));
            r.push((yes, true));
            r.push((no, false));
            assert(yes@ =~= st.with_conds(st.conds.push((id, true))));
            assert(no@ =~= st.with_conds(st.conds.push((id, false))));
            assert(forks(r@) =~= seq![
                (st.with_conds(st.conds.push((id, true))), true),
                (st.with_conds(st.conds.push((id, false))), false),
            ]);
        },
    }
    Ok(r)
}

fn invert(outcomes: Vec<(SymState, bool)>) -> (r: Vec<(SymState, bool)>)
    ensures
        forks(r@) == inverted(forks(outcomes@)),
{
    let ghost all = outcomes@;
    let mut r = outcomes;
    let mut i: usize = 0;
    while i < r.len()
        invariant
            i <= r@.len() == all.len(),
            forall|k: int| 0 <= k < i ==> (#[trigger] r@[k]) == (all[k].0, !all[k].1),
            forall|k: int| i <= k < all.len() ==> (#[trigger] r@[k]) == all[k],
        decreases r.len() - i,
    {
        let value: bool = r[i].1;
        r[i].1 = !value;
        i = i + 1;
    }
    assert(forks(r@) =~= inverted(forks(all)));
    r
}

/// Evaluates the condition `lo..hi` on a path.
pub fn evaluate(tree: &SyntaxTree, lo: usize, hi: usize, atoms: &mut Vec<String>, state: SymState) -> (r: Result<
    Vec<(SymState, bool)>,
    String,
>)
    requires
        lo < hi <= tree@.len(),
    ensures
        eval_result(final(atoms)@, r) == eval(tree@, lo as int, hi as int, texts(old(atoms)@), state@),
    decreases hi - lo, 0nat,
{
    let ghost st = state@;
    let operator = tree.role_text(lo, hi, "operator");
    let binary: bool = tree.is_kind(lo, "binary_expression");
    let both: bool = binary && same(operator.as_str(), "&&");
    if tree.is_kind(lo, "parenthesized_expression") {
        match tree.first_named_child(lo, hi) {
            Some((a, b)) => {
                return evaluate(tree, a, b, atoms, state);
            },
            None => {},
        }
    } else if tree.is_kind(lo, "unary_expression") && same(operator.as_str(), "!") {
        match tree.child(lo, hi, "operand") {
            Some((a, b)) => {
                return match evaluate(tree, a, b, atoms, state) {
                    Ok(outcomes) => Ok(invert(outcomes)),
                    Err(e) => Err(e),
                };
            },
            None => {},
        }
    } else if both || binary && same(operator.as_str(), "||") {
        match (tree.child(lo, hi, "left"), tree.child(lo, hi, "right")) {
            (Some((a, b)), Some((c, d))) => {
                return match evaluate(tree, a, b, atoms, state) {
                    Ok(outcomes) => evaluate_right(tree, c, d, atoms, outcomes, both),
                    Err(e) => Err(e),
                };
            },
            _ => {},
        }
    } else if tree.is_kind(lo, "true") {
        let mut r: Vec<(SymState, bool)> = Vec::new();
        r.push((state, true));
        assert(forks(r@) =~= seq![(st, true)]);
        return Ok(r);
    } else if tree.is_kind(lo, "false") {
        let mut r: Vec<(SymState, bool)> = Vec::new();
        r.push((state, false));
        assert(forks(r@) =~= seq![(st, false)]);
        return Ok(r);
    }
    fork_on(atoms, tree.collapsed(lo).as_str(), state)
}

fn evaluate_right(
    tree: &SyntaxTree,
    lo: usize,
    hi: usize,
    atoms: &mut Vec<String>,
    lefts: Vec<(SymState, bool)>,
    go_on: bool,
) -> (r: Result<Vec<(SymState, bool)>, String>)
    requires
        lo < hi <= tree@.len(),
    ensures
        eval_result(final(atoms)@, r) == eval_right(
            tree@,
            lo as int,
            hi as int,
            texts(old(atoms)@),
            forks(lefts@),
            go_on,
            0,
        ),
    decreases hi - lo, 1nat,
{
    let ghost t = tree@;
    let ghost all = forks(lefts@);
    let ghost total = eval_right(t, lo as int, hi as int, texts(atoms@), all, go_on, 0);
    let mut r: Vec<(SymState, bool)> = Vec::new();
    let mut i: usize = 0;
    proof {
        lemma_joined_start(total);
        assert(forks(r@) =~= Seq::empty());
    }
    while i < lefts.len()
        invariant
            lo < hi <= tree@.len(),
            t == tree@,
            i <= lefts@.len(),
            all == forks(lefts@),
            total == eval_right(t, lo as int, hi as int, texts(old(atoms)@), all, go_on, 0),
            total == after(forks(r@), eval_right(t, lo as int, hi as int, texts(atoms@), all, go_on, i as int)),
        decreases hi - lo, 0nat, lefts.len() - i,
    {
        let ghost done = forks(r@);
        assert(all[i as int] == (lefts@[i as int].0@, lefts@[i as int].1));
        let state = lefts[i].0.copied();
        let value: bool = lefts[i].1;
        if value == go_on {
            let mut more = match evaluate(tree, lo, hi, atoms, state) {
                Ok(more) => more,
                Err(e) => {
                    return Err(e);
                },
            };
            let ghost m = forks(more@);
            let ghost old_r = r@;
            let ghost old_more = more@;
            r.append(&mut more);
            assert(r@ =~= old_r + old_more);
            assert(forks(r@) =~= done + m);
            proof {
                lemma_after(done, m, eval_right(t, lo as int, hi as int, texts(atoms@), all, go_on, i + 1));
            }
        } else {
            let ghost st = state@;
            r.push((state, value));
            assert(forks(r@) =~= done + seq![(st, value)]);
            proof {
                lemma_after(
                    done,
                    seq![(st, value)],
                    eval_right(t, lo as int, hi as int, texts(atoms@), all, go_on, i + 1),
                );
            }
        }
        i = i + 1;
    }
    assert(forks(r@) + Seq::<(StateView, bool)>::empty() =~= forks(r@));
    Ok(r)
}

/// Outcomes put before those of a result.
spec fn after(
    done: Seq<(StateView, bool)>,
    rest: Result<(Seq<Seq<char>>, Seq<(StateView, bool)>), Seq<char>>,
) -> Result<(Seq<Seq<char>>, Seq<(StateView, bool)>), Seq<char>> {
    match rest {
        Ok((atoms, outcomes)) => Ok((atoms, done + outcomes)),
        Err(e) => Err(e),
    }
}

proof fn lemma_joined_start(rest: Result<(Seq<Seq<char>>, Seq<(StateView, bool)>), Seq<char>>)
    ensures
        after(Seq::empty(), rest) == rest,
{
    match rest {
        Ok((atoms, outcomes)) => {
            assert(Seq::<(StateView, bool)>::empty() + outcomes =~= outcomes);
        },
        Err(_) => {},
    }
}

proof fn lemma_after(
    done: Seq<(StateView, bool)>,
    more: Seq<(StateView, bool)>,
    rest: Result<(Seq<Seq<char>>, Seq<(StateView, bool)>), Seq<char>>,
)
    ensures
        after(done, after(more, rest)) == after(done + more, rest),
{
    match rest {
        Ok((atoms, outcomes)) => {
            assert(done + (more + outcomes) =~= (done + more) + outcomes);
        },
        Err(_) => {},
    }
}

/// What follows the last dot of a text.
pub open spec fn last_segment(s: Seq<char>) -> Seq<char>
    decreases s.len(),
{
    if s.len() == 0 || s.last() == '.' {
        Seq::empty()
    } else {
        last_segment(s.drop_last()).push(s.last())
    }
}

pub fn segment_after_dots(s: &[char]) -> (r: String)
    ensures
        r@ == last_segment(s@),
{
    let mut i: usize = s.len();
    assert(s@.take(i as int) =~= s@);
    assert(s@.subrange(i as int, s@.len() as int) =~= Seq::empty());
    assert(last_segment(s@) =~= last_segment(s@.take(i as int)) + s@.subrange(i as int, s@.len() as int));
    while i > 0 && s[i - 1] != '.'
        invariant
            i <= s@.len(),
            last_segment(s@) == last_segment(s@.take(i as int)) + s@.subrange(i as int, s@.len() as int),
        decreases i,
    {
        i = i - 1;
        assert(s@.take(i + 1).drop_last() =~= s@.take(i as int));
        assert(last_segment(s@) =~= last_segment(s@.take(i as int)) + s@.subrange(i as int, s@.len() as int));
    }
    assert(last_segment(s@.take(i as int)) =~= Seq::empty());
    assert(last_segment(s@) =~= s@.subrange(i as int, s@.len() as int));
    let n: usize = s.len();
    string_of(vstd::slice::slice_subrange(s, i, n))
}

/// A receiver that only logs: a logger, or one of the standard streams.
pub open spec fn is_logger(object: Seq<char>) -> bool {
    ||| object == "System.out"@
    ||| object == "System.err"@
    ||| lowercase(last_segment(object)) == "log"@
    ||| lowercase(last_segment(object)) == "logger"@
}

fn logs(object: &str) -> (r: bool)
    ensures
        r == is_logger(object@),
{
    let name = segment_after_dots(chars_of(object).as_slice());
    let lower = name.as_str().to_lowercase();
    same(object, "System.out") || same(object, "System.err") || same(lower.as_str(), "log") || same(
        lower.as_str(),
        "logger",
    )
}

/// The value of an assignment; a compound one is spelled out.
pub open spec fn assigned_value(target: Seq<char>, operator: Seq<char>, right: Seq<char>) -> Seq<char> {
    if operator == "="@ || operator.len() == 0 {
        right
    } else {
        target + " "@ + operator.drop_last() + " "@ + right
    }
}

/// What the expression `lo..hi` does to a path when it stands as a statement:
/// assignments and increments write, calls are remembered unless they log.
pub open spec fn effect(t: Seq<NodeView>, lo: int, hi: int, st: StateView) -> StateView {
    if t[lo].kind == "assignment_expression"@ {
        match (child_in_role(t, lo, hi, "left"@), child_in_role(t, lo, hi, "right"@)) {
            (Some((a, _)), Some((b, _))) => {
                let target = normalized(t[a].text);
                let value = assigned_value(target, text_in_role(t, lo, hi, "operator"@), normalized(t[b].text));
                StateView { writes: with_write(st.writes, target, value), ..st }
            },
            _ => st,
        }
    } else if t[lo].kind == "update_expression"@ {
        match first_named(t, lo, hi) {
            Some((a, _)) => StateView {
                writes: with_write(st.writes, normalized(t[a].text), normalized(t[lo].text)),
                ..st
            },
            None => st,
        }
    } else if t[lo].kind == "method_invocation"@ && !is_logger(text_in_role(t, lo, hi, "object"@)) {
        StateView { calls: with_call(st.calls, normalized(t[lo].text)), ..st }
    } else {
        st
    }
}

/// A call that never returns: its name, or its dotted name, is listed.
pub open spec fn is_terminal(t: Seq<NodeView>, lo: int, hi: int, terminals: Seq<Seq<char>>) -> bool {
    let name = text_in_role(t, lo, hi, "name"@);
    t[lo].kind == "method_invocation"@ && (terminals.contains(name) || match child_in_role(t, lo, hi, "object"@) {
        Some((a, _)) => terminals.contains(normalized(t[a].text) + "."@ + name),
        None => false,
    })
}

fn spelled_out(target: &str, operator: &str, right: String) -> (r: String)
    ensures
        r@ == assigned_value(target@, operator@, right@),
{
    let op = chars_of(operator);
    let n: usize = op.len();
    if same(operator, "=") || n == 0 {
        return right;
    }
    let mut r = target.to_owned();
    r.append(" ");
    r.append(string_of(vstd::slice::slice_subrange(op.as_slice(), 0, n - 1)).as_str());
    r.append(" ");
    r.append(right.as_str());
    assert(op@.subrange(0, n - 1) =~= operator@.drop_last());
    r
}

/// Applies the expression `lo..hi` to a path.
pub fn record_write(tree: &SyntaxTree, lo: usize, hi: usize, state: &mut SymState)
    requires
        lo < hi <= tree@.len(),
    ensures
        final(state)@ == effect(tree@, lo as int, hi as int, old(state)@),
{
    if tree.is_kind(lo, "assignment_expression") {
        match (tree.child(lo, hi, "left"), tree.child(lo, hi, "right")) {
            (Some((a, _)), Some((b, _))) => {
                let target = tree.collapsed(a);
                let operator = tree.role_text(lo, hi, "operator");
                let value = spelled_out(target.as_str(), operator.as_str(), tree.collapsed(b));
                state.write(target, value);
            },
            _ => {},
        }
    } else if tree.is_kind(lo, "update_expression") {
        match tree.first_named_child(lo, hi) {
            Some((a, _)) => {
                state.write(tree.collapsed(a), tree.collapsed(lo));
            },
            None => {},
        }
    } else if tree.is_kind(lo, "method_invocation") && !logs(tree.role_text(lo, hi, "object").as_str()) {
        state.call(tree.collapsed(lo));
    }
}

/// Decides whether a call never returns.
pub fn is_terminal_call(tree: &SyntaxTree, lo: usize, hi: usize, terminals: &Vec<String>) -> (r: bool)
    requires
        lo < hi <= tree@.len(),
    ensures
        r == is_terminal(tree@, lo as int, hi as int, texts(terminals@)),
{
    if !tree.is_kind(lo, "method_invocation") {
        return false;
    }
    let name = tree.role_text(lo, hi, "name");
    if contains_text(terminals.as_slice(), name.as_str()) {
        return true;
    }
    match tree.child(lo, hi, "object") {
        Some((a, _)) => {
            let mut dotted = tree.collapsed(a);
            dotted.append(".");
            dotted.append(name.as_str());
            contains_text(terminals.as_slice(), dotted.as_str())
        },
        None => false,
    }
}

} // verus!
