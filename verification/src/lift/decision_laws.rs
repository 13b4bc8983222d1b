//! The extracted tables say what the method does, whatever the conditions are.

use vstd::prelude::*;

use crate::lift::decision_extractor::{
    method_walk, parameter_names, path_outcome, visible_effects, walk_finished, walk_start, walk_table,
};
use crate::lift::decision_walk::{
    arm_labels, declared, enter, is_unmodeled, join, open_conditions, return_text, throw_text, walk, walk_arms,
    walk_branches, walk_each, WalkView, MAX_PATHS,
};
use crate::lift::merge_laws::{
    all_do, bare, holds_for, law_merging_keeps_cases, meets, some_state, states_valid, valid,
};
use crate::lift::merging::merged_states;
use crate::lift::switch_model::{switch_model, SwitchView};
use crate::lift::switches::{is_switch, stmt_at};
use crate::lift::symbolic::{effect, eval, eval_atom, eval_right, is_binary, is_not, is_terminal, StateView, MAX_ATOMS};
use crate::lift::syntax::{child_in_role, first_named, node_end, NodeView};
use crate::lift::tag_extractor::{lemma_row_inputs, row_inputs};
use crate::lift::tag_paths::{assign, assign_false, intern, pinned};
use crate::logic::bits::bit_at;
use crate::logic::compress::{admits, applies, clash, consistent};
use crate::logic::table::{Tri, MAX_VARIABLES};
use crate::text::{first_index, lemma_first_index, normalized};

verus! {

/// Conditions can be numbered: they are distinct and not too many.
#[verifier::opaque]
pub open spec fn are_atoms(cap: usize, atoms: Seq<Seq<char>>) -> bool {
    atoms.len() <= cap && atoms.no_duplicates()
}

/// The truth of the condition `lo..hi`.
pub open spec fn is_true(t: Seq<NodeView>, lo: int, hi: int, truth: spec_fn(Seq<char>) -> bool) -> bool
    decreases hi - lo,
{
    let other = truth(normalized(t[lo].text));
    if t[lo].kind == "parenthesized_expression"@ {
        match first_named(t, lo, hi) {
            Some((a, b)) => is_true(t, a, b, truth),
            None => other,
        }
    } else if is_not(t, lo, hi) {
        match child_in_role(t, lo, hi, "operand"@) {
            Some((a, b)) => !is_true(t, a, b, truth),
            None => other,
        }
    } else if is_binary(t, lo, hi, "&&"@) || is_binary(t, lo, hi, "||"@) {
        match (child_in_role(t, lo, hi, "left"@), child_in_role(t, lo, hi, "right"@)) {
            (Some((a, b)), Some((c, d))) => if is_binary(t, lo, hi, "&&"@) {
                is_true(t, a, b, truth) && is_true(t, c, d, truth)
            } else {
                is_true(t, a, b, truth) || is_true(t, c, d, truth)
            },
            _ => other,
        }
    } else if t[lo].kind == "true"@ {
        true
    } else if t[lo].kind == "false"@ {
        false
    } else {
        other
    }
}

/// Runs the statements `lo..hi` with the conditions as given: what has been
/// done at the end, and how the method was left, if it was.
pub open spec fn run(
    t: Seq<NodeView>,
    terminals: Seq<Seq<char>>,
    lo: int,
    hi: int,
    st: StateView,
    truth: spec_fn(Seq<char>) -> bool,
) -> (StateView, Option<Seq<char>>)
    decreases hi - lo, 1nat, 0int,
{
    let p = stmt_at(t, lo, hi);
    if p >= hi {
        (st, None)
    } else {
        let e = node_end(t, p, hi);
        if t[p].kind == "return_statement"@ {
            (st, Some(return_text(t, p, e, st)))
        } else if t[p].kind == "throw_statement"@ {
            (st, Some(throw_text(t, p, e)))
        } else if t[p].kind == "local_variable_declaration"@ {
            run(t, terminals, e, hi, declared(t, p + 1, e, Seq::empty(), st).1, truth)
        } else if t[p].kind == "expression_statement"@ {
            match first_named(t, p, e) {
                Some((a, b)) => if is_terminal(t, a, b, terminals) {
                    (st, Some(normalized(t[a].text)))
                } else {
                    run(t, terminals, e, hi, effect(t, a, b, st), truth)
                },
                None => run(t, terminals, e, hi, st, truth),
            }
        } else if t[p].kind == "if_statement"@ {
            match child_in_role(t, p, e, "condition"@) {
                Some((c, d)) => match run_branch(t, terminals, p, e, is_true(t, c, d, truth), st, truth) {
                    (after, Some(outcome)) => (after, Some(outcome)),
                    (after, None) => run(t, terminals, e, hi, after, truth),
                },
                None => (st, None),
            }
        } else if t[p].kind == "block"@ {
            match run(t, terminals, p + 1, e, st, truth) {
                (after, Some(outcome)) => (after, Some(outcome)),
                (after, None) => run(t, terminals, e, hi, after, truth),
            }
        } else if is_switch(t[p]) {
            match switch_model(t, p, e) {
                Some(model) => match run_cases(t, terminals, p, e, model, 0, st, truth) {
                    (after, Some(outcome)) => (after, Some(outcome)),
                    (after, None) => run(t, terminals, e, hi, after, truth),
                },
                None => run(t, terminals, e, hi, st, truth),
            }
        } else {
            run(t, terminals, e, hi, st, truth)
        }
    }
}

/// Runs one branch of the conditional `lo..hi`.
pub open spec fn run_branch(
    t: Seq<NodeView>,
    terminals: Seq<Seq<char>>,
    lo: int,
    hi: int,
    value: bool,
    st: StateView,
    truth: spec_fn(Seq<char>) -> bool,
) -> (StateView, Option<Seq<char>>)
    decreases hi - lo, 0nat, 0int,
{
    let role = if value {
        "consequence"@
    } else {
        "alternative"@
    };
    match child_in_role(t, lo, hi, role) {
        Some((a, b)) => if t[a].kind == "block"@ {
            run(t, terminals, a + 1, b, st, truth)
        } else {
            run(t, terminals, a, b, st, truth)
        },
        None => (st, None),
    }
}

/// Runs the first case from `i` on whose condition holds, or the default.
pub open spec fn run_cases(
    t: Seq<NodeView>,
    terminals: Seq<Seq<char>>,
    lo: int,
    hi: int,
    model: SwitchView,
    i: int,
    st: StateView,
    truth: spec_fn(Seq<char>) -> bool,
) -> (StateView, Option<Seq<char>>)
    decreases hi - lo, 0nat, model.arms.len() - i,
{
    if i < 0 || i >= model.arms.len() {
        match model.default {
            Some((a, b)) => if lo < a <= b <= hi {
                run(t, terminals, a, b, st, truth)
            } else {
                (st, None)
            },
            None => (st, None),
        }
    } else {
        let arm = model.arms[i];
        if truth(arm.label) {
            if lo < arm.lo <= arm.hi <= hi {
                run(t, terminals, arm.lo, arm.hi, st, truth)
            } else {
                (st, None)
            }
        } else {
            run_cases(t, terminals, lo, hi, model, i + 1, st, truth)
        }
    }
}

/// Conditions known earlier mean the same later.
pub proof fn lemma_known_later(
    conds: Seq<(usize, bool)>,
    a: Seq<Seq<char>>,
    b: Seq<Seq<char>>,
    truth: spec_fn(Seq<char>) -> bool,
)
    requires
        valid(conds, a.len()),
        a.is_prefix_of(b),
    ensures
        valid(conds, b.len()),
        holds_for(conds, a, truth) == holds_for(conds, b, truth),
{
    assert forall|k: int| 0 <= k < conds.len() implies #[trigger] meets(conds[k], a, truth) == meets(
        conds[k],
        b,
        truth,
    ) by {
        assert(conds[k].0 < a.len());
    }
    if holds_for(conds, b, truth) {
        assert forall|k: int| 0 <= k < conds.len() implies #[trigger] meets(conds[k], a, truth) by {
            assert(meets(conds[k], b, truth));
        }
    }
    if holds_for(conds, a, truth) {
        assert forall|k: int| 0 <= k < conds.len() implies #[trigger] meets(conds[k], b, truth) by {
            assert(meets(conds[k], a, truth));
        }
    }
}

proof fn lemma_intern(cap: usize, atoms: Seq<Seq<char>>, label: Seq<char>)
    requires
        are_atoms(cap, atoms),
    ensures
        intern(cap, atoms, label) matches Ok((more, id)) ==> atoms.is_prefix_of(more) && are_atoms(cap, more) && id
            < more.len() && more[id as int] == label,
{
    reveal(are_atoms);
    lemma_first_index(atoms, label);
    if first_index(atoms, label) is None {
        assert(!atoms.contains(label));
    }
}

proof fn lemma_pinned(conds: Seq<(usize, bool)>, id: usize)
    ensures
        match pinned(conds, id) {
            Some(v) => conds.contains((id, v)),
            None => forall|k: int| 0 <= k < conds.len() ==> (#[trigger] conds[k]).0 != id,
        },
    decreases conds.len(),
{
    if conds.len() > 0 {
        let front = conds.drop_last();
        lemma_pinned(front, id);
        match pinned(front, id) {
            Some(v) => {
                let k = choose|k: int| 0 <= k < front.len() && front[k] == (id, v);
                assert(conds[k] == (id, v));
            },
            None => {
                assert forall|k: int| 0 <= k < front.len() implies (#[trigger] conds[k]).0 != id by {
                    assert(front[k].0 != id);
                }
                if conds.last().0 == id {
                    assert(conds[conds.len() - 1] == (id, conds.last().1));
                }
            },
        }
    }
}

/// One more pinned condition.
proof fn lemma_push(
    conds: Seq<(usize, bool)>,
    atoms: Seq<Seq<char>>,
    id: usize,
    value: bool,
    truth: spec_fn(Seq<char>) -> bool,
)
    requires
        valid(conds, atoms.len()),
        id < atoms.len(),
        forall|k: int| 0 <= k < conds.len() ==> (#[trigger] conds[k]).0 != id,
    ensures
        valid(conds.push((id, value)), atoms.len()),
        holds_for(conds.push((id, value)), atoms, truth) == (holds_for(conds, atoms, truth) && truth(
            atoms[id as int],
        ) == value),
{
    let more = conds.push((id, value));
    assert(more[conds.len() as int] == (id, value));
    assert forall|k: int| 0 <= k < conds.len() implies more[k] == #[trigger] conds[k] by {}
    if holds_for(more, atoms, truth) {
        assert(meets(more[conds.len() as int], atoms, truth));
        assert forall|k: int| 0 <= k < conds.len() implies #[trigger] meets(conds[k], atoms, truth) by {
            assert(meets(more[k], atoms, truth));
        }
    }
    if holds_for(conds, atoms, truth) && truth(atoms[id as int]) == value {
        assert forall|k: int| 0 <= k < more.len() implies #[trigger] meets(more[k], atoms, truth) by {
            if k < conds.len() {
                assert(meets(conds[k], atoms, truth));
            }
        }
    }
}

/// What is left of a path when conditions are pinned.
pub open spec fn pinned_well(
    cap: usize,
    atoms: Seq<Seq<char>>,
    more: Seq<Seq<char>>,
    left: Option<Seq<(usize, bool)>>,
    truth: spec_fn(Seq<char>) -> bool,
    reached: bool,
) -> bool {
    &&& atoms.is_prefix_of(more)
    &&& are_atoms(cap, more)
    &&& match left {
        Some(conds) => valid(conds, more.len()) && holds_for(conds, more, truth) == reached,
        None => !reached,
    }
}

pub proof fn lemma_assign(
    cap: usize,
    atoms: Seq<Seq<char>>,
    conds: Seq<(usize, bool)>,
    label: Seq<char>,
    value: bool,
    truth: spec_fn(Seq<char>) -> bool,
)
    requires
        are_atoms(cap, atoms),
        valid(conds, atoms.len()),
    ensures
        assign(cap, atoms, conds, label, value) matches Ok((more, left)) ==> pinned_well(
            cap,
            atoms,
            more,
            left,
            truth,
            holds_for(conds, atoms, truth) && truth(label) == value,
        ),
{
    lemma_intern(cap, atoms, label);
    if let Ok((more, id)) = intern(cap, atoms, label) {
        lemma_known_later(conds, atoms, more, truth);
        lemma_pinned(conds, id);
        match pinned(conds, id) {
            Some(v) => {
                let k = choose|k: int| 0 <= k < conds.len() && conds[k] == (id, v);
                if holds_for(conds, more, truth) {
                    assert(meets(conds[k], more, truth));
                }
            },
            None => {
                lemma_push(conds, more, id, value, truth);
            },
        }
    }
}

/// None of the labels from `i` on holds.
pub open spec fn all_false(labels: Seq<Seq<char>>, i: int, truth: spec_fn(Seq<char>) -> bool) -> bool {
    forall|j: int| i <= j < labels.len() ==> !truth(#[trigger] labels[j])
}

pub proof fn lemma_assign_false(
    cap: usize,
    atoms: Seq<Seq<char>>,
    conds: Seq<(usize, bool)>,
    labels: Seq<Seq<char>>,
    i: int,
    truth: spec_fn(Seq<char>) -> bool,
)
    requires
        0 <= i,
        are_atoms(cap, atoms),
        valid(conds, atoms.len()),
    ensures
        assign_false(cap, atoms, conds, labels, i) matches Ok((more, left)) ==> pinned_well(
            cap,
            atoms,
            more,
            left,
            truth,
            holds_for(conds, atoms, truth) && all_false(labels, i, truth),
        ),
    decreases labels.len() - i,
{
    if i < labels.len() {
        lemma_assign(cap, atoms, conds, labels[i], false, truth);
        match assign(cap, atoms, conds, labels[i], false) {
            Ok((more, Some(next))) => {
                lemma_assign_false(cap, more, next, labels, i + 1, truth);
                assert(all_false(labels, i, truth) == (!truth(labels[i]) && all_false(labels, i + 1, truth))) by {
                    if !truth(labels[i]) && all_false(labels, i + 1, truth) {
                        assert forall|j: int| i <= j < labels.len() implies !truth(#[trigger] labels[j]) by {}
                    }
                }
            },
            Ok((more, None)) => {
                assert(all_false(labels, i, truth) ==> !truth(labels[i]));
            },
            Err(_) => {},
        }
    }
}

/// The outcomes of a condition are right: those that agree with the truth
/// leave what was done and have the condition's value; there is one exactly
/// where the path was reached.
spec fn outcomes_right(
    atoms: Seq<Seq<char>>,
    more: Seq<Seq<char>>,
    outcomes: Seq<(StateView, bool)>,
    truth: spec_fn(Seq<char>) -> bool,
    does: StateView,
    value: bool,
    reached: bool,
) -> bool {
    &&& atoms.is_prefix_of(more)
    &&& are_atoms(MAX_ATOMS, more)
    &&& forks_valid(outcomes, more.len())
    &&& forks_do(outcomes, 0, more, truth, does, value)
    &&& some_fork(outcomes, 0, more, truth) == reached
}

spec fn forks_valid(outcomes: Seq<(StateView, bool)>, n: nat) -> bool {
    forall|i: int| 0 <= i < outcomes.len() ==> valid((#[trigger] outcomes[i]).0.conds, n)
}

spec fn forks_do(
    outcomes: Seq<(StateView, bool)>,
    from: int,
    atoms: Seq<Seq<char>>,
    truth: spec_fn(Seq<char>) -> bool,
    does: StateView,
    value: bool,
) -> bool {
    forall|i: int|
        from <= i < outcomes.len() && holds_for((#[trigger] outcomes[i]).0.conds, atoms, truth) ==> bare(
            outcomes[i].0,
        ) == does && outcomes[i].1 == value
}

spec fn some_fork(
    outcomes: Seq<(StateView, bool)>,
    from: int,
    atoms: Seq<Seq<char>>,
    truth: spec_fn(Seq<char>) -> bool,
) -> bool {
    exists|i: int| from <= i < outcomes.len() && holds_for((#[trigger] outcomes[i]).0.conds, atoms, truth)
}

proof fn lemma_eval_atom(
    atoms: Seq<Seq<char>>,
    label: Seq<char>,
    st: StateView,
    truth: spec_fn(Seq<char>) -> bool,
)
    requires
        are_atoms(MAX_ATOMS, atoms),
        valid(st.conds, atoms.len()),
    ensures
        eval_atom(atoms, label, st) matches Ok((more, outcomes)) ==> outcomes_right(
            atoms,
            more,
            outcomes,
            truth,
            bare(st),
            truth(label),
            holds_for(st.conds, atoms, truth),
        ),
{
    lemma_intern(MAX_ATOMS, atoms, label);
    if let Ok((more, id)) = intern(MAX_ATOMS, atoms, label) {
        lemma_known_later(st.conds, atoms, more, truth);
        lemma_pinned(st.conds, id);
        let outcomes = eval_atom(atoms, label, st)->Ok_0.1;
        match pinned(st.conds, id) {
            Some(v) => {
                let k = choose|k: int| 0 <= k < st.conds.len() && st.conds[k] == (id, v);
                assert(outcomes[0] == (st, v));
                if holds_for(st.conds, more, truth) {
                    assert(meets(st.conds[k], more, truth));
                }
            },
            None => {
                lemma_push(st.conds, more, id, true, truth);
                lemma_push(st.conds, more, id, false, truth);
                let yes = st.with_conds(st.conds.push((id, true)));
                let no = st.with_conds(st.conds.push((id, false)));
                assert(outcomes[0] == (yes, true));
                assert(outcomes[1] == (no, false));
                assert(bare(yes) =~= bare(st));
                assert(bare(no) =~= bare(st));
                if holds_for(st.conds, more, truth) {
                    if truth(label) {
                        assert(holds_for(outcomes[0].0.conds, more, truth));
                    } else {
                        assert(holds_for(outcomes[1].0.conds, more, truth));
                    }
                }
            },
        }
    }
}

/// A condition's outcomes are those of its truth.
proof fn lemma_eval(
    t: Seq<NodeView>,
    lo: int,
    hi: int,
    atoms: Seq<Seq<char>>,
    st: StateView,
    truth: spec_fn(Seq<char>) -> bool,
)
    requires
        are_atoms(MAX_ATOMS, atoms),
        valid(st.conds, atoms.len()),
    ensures
        eval(t, lo, hi, atoms, st) matches Ok((more, outcomes)) ==> outcomes_right(
            atoms,
            more,
            outcomes,
            truth,
            bare(st),
            is_true(t, lo, hi, truth),
            holds_for(st.conds, atoms, truth),
        ),
    decreases hi - lo, 0nat, 0int,
{
    let reached = holds_for(st.conds, atoms, truth);
    lemma_eval_atom(atoms, normalized(t[lo].text), st, truth);
    if t[lo].kind == "parenthesized_expression"@ {
        if let Some((a, b)) = first_named(t, lo, hi) {
            lemma_eval(t, a, b, atoms, st, truth);
        }
    } else if is_not(t, lo, hi) {
        if let Some((a, b)) = child_in_role(t, lo, hi, "operand"@) {
            lemma_eval(t, a, b, atoms, st, truth);
            if let Ok((more, inner)) = eval(t, a, b, atoms, st) {
                let outcomes = eval(t, lo, hi, atoms, st)->Ok_0.1;
                assert forall|i: int| 0 <= i < inner.len() implies #[trigger] outcomes[i] == (
                    inner[i].0,
                    !inner[i].1,
                ) by {}
                if some_fork(inner, 0, more, truth) {
                    let i = choose|i: int|
                        0 <= i < inner.len() && holds_for((#[trigger] inner[i]).0.conds, more, truth);
                    assert(holds_for(outcomes[i].0.conds, more, truth));
                }
                if some_fork(outcomes, 0, more, truth) {
                    let i = choose|i: int|
                        0 <= i < outcomes.len() && holds_for((#[trigger] outcomes[i]).0.conds, more, truth);
                    assert(holds_for(inner[i].0.conds, more, truth));
                }
            }
        }
    } else if is_binary(t, lo, hi, "&&"@) || is_binary(t, lo, hi, "||"@) {
        if let (Some((a, b)), Some((c, d))) = (
            child_in_role(t, lo, hi, "left"@),
            child_in_role(t, lo, hi, "right"@),
        ) {
            lemma_eval(t, a, b, atoms, st, truth);
            if let Ok((more, lefts)) = eval(t, a, b, atoms, st) {
                let both = is_binary(t, lo, hi, "&&"@);
                lemma_eval_right(t, c, d, more, lefts, both, 0, truth, bare(st), is_true(t, a, b, truth));
            }
        }
    } else if t[lo].kind == "true"@ || t[lo].kind == "false"@ {
        let outcomes = eval(t, lo, hi, atoms, st)->Ok_0.1;
        assert(outcomes.len() == 1 && outcomes[0].0 == st);
        if reached {
            assert(holds_for(outcomes[0].0.conds, atoms, truth));
        }
    }
}

proof fn lemma_eval_right(
    t: Seq<NodeView>,
    lo: int,
    hi: int,
    atoms: Seq<Seq<char>>,
    lefts: Seq<(StateView, bool)>,
    go_on: bool,
    i: int,
    truth: spec_fn(Seq<char>) -> bool,
    does: StateView,
    value: bool,
)
    requires
        0 <= i,
        are_atoms(MAX_ATOMS, atoms),
        forks_valid(lefts, atoms.len()),
        forks_do(lefts, i, atoms, truth, does, value),
    ensures
        eval_right(t, lo, hi, atoms, lefts, go_on, i) matches Ok((more, outcomes)) ==> outcomes_right(
            atoms,
            more,
            outcomes,
            truth,
            does,
            if value == go_on {
                is_true(t, lo, hi, truth)
            } else {
                value
            },
            some_fork(lefts, i, atoms, truth),
        ),
    decreases hi - lo, 1nat, lefts.len() - i,
{
    let result = if value == go_on {
        is_true(t, lo, hi, truth)
    } else {
        value
    };
    if i < lefts.len() {
        let (st, v) = lefts[i];
        assert(valid(lefts[i].0.conds, atoms.len()));
        let here = holds_for(st.conds, atoms, truth);
        assert(some_fork(lefts, i, atoms, truth) == (here || some_fork(lefts, i + 1, atoms, truth))) by {
            if here {
                assert(holds_for(lefts[i].0.conds, atoms, truth));
            }
        }
        let first = if v == go_on {
            eval(t, lo, hi, atoms, st)
        } else {
            Ok((atoms, seq![(st, v)]))
        };
        if v == go_on {
            lemma_eval(t, lo, hi, atoms, st, truth);
        } else {
            let one = seq![(st, v)];
            assert(one[0] == (st, v));
            if here {
                assert(holds_for(one[0].0.conds, atoms, truth));
            }
        }
        if let Ok((mid, ones)) = first {
            assert forall|j: int| 0 <= j < lefts.len() implies valid((#[trigger] lefts[j]).0.conds, mid.len())
                && holds_for(lefts[j].0.conds, atoms, truth) == holds_for(lefts[j].0.conds, mid, truth) by {
                lemma_known_later(lefts[j].0.conds, atoms, mid, truth);
            }
            assert(some_fork(lefts, i + 1, atoms, truth) == some_fork(lefts, i + 1, mid, truth)) by {
                if some_fork(lefts, i + 1, atoms, truth) {
                    let j = choose|j: int|
                        i + 1 <= j < lefts.len() && holds_for((#[trigger] lefts[j]).0.conds, atoms, truth);
                    assert(holds_for(lefts[j].0.conds, mid, truth));
                }
                if some_fork(lefts, i + 1, mid, truth) {
                    let j = choose|j: int|
                        i + 1 <= j < lefts.len() && holds_for((#[trigger] lefts[j]).0.conds, mid, truth);
                    assert(holds_for(lefts[j].0.conds, atoms, truth));
                }
            }
            lemma_eval_right(t, lo, hi, mid, lefts, go_on, i + 1, truth, does, value);
            if let Ok((more, rest)) = eval_right(t, lo, hi, mid, lefts, go_on, i + 1) {
                if here {
                    assert(bare(st) == does && v == value);
                }
                lemma_forks_joined(mid, more, ones, rest, truth, does, result);
            }
        }
    }
}

/// Outcomes of two parts put together.
proof fn lemma_forks_joined(
    mid: Seq<Seq<char>>,
    more: Seq<Seq<char>>,
    ones: Seq<(StateView, bool)>,
    rest: Seq<(StateView, bool)>,
    truth: spec_fn(Seq<char>) -> bool,
    does: StateView,
    value: bool,
)
    requires
        mid.is_prefix_of(more),
        forks_valid(ones, mid.len()),
        forks_do(ones, 0, mid, truth, does, value),
        forks_valid(rest, more.len()),
        forks_do(rest, 0, more, truth, does, value),
    ensures
        forks_valid(ones + rest, more.len()),
        forks_do(ones + rest, 0, more, truth, does, value),
        some_fork(ones + rest, 0, more, truth) == (some_fork(ones, 0, mid, truth) || some_fork(rest, 0, more, truth)),
{
    let all = ones + rest;
    assert forall|i: int| 0 <= i < ones.len() implies valid((#[trigger] ones[i]).0.conds, more.len()) && holds_for(
        ones[i].0.conds,
        mid,
        truth,
    ) == holds_for(ones[i].0.conds, more, truth) by {
        lemma_known_later(ones[i].0.conds, mid, more, truth);
    }
    assert forall|i: int| 0 <= i < all.len() implies #[trigger] all[i] == if i < ones.len() {
        ones[i]
    } else {
        rest[i - ones.len()]
    } by {}
    assert forall|i: int| 0 <= i < all.len() implies valid((#[trigger] all[i]).0.conds, more.len()) by {
        if i >= ones.len() {
            assert(valid(rest[i - ones.len()].0.conds, more.len()));
        }
    }
    if some_fork(ones, 0, mid, truth) {
        let i = choose|i: int| 0 <= i < ones.len() && holds_for((#[trigger] ones[i]).0.conds, mid, truth);
        assert(holds_for(all[i].0.conds, more, truth));
    }
    if some_fork(rest, 0, more, truth) {
        let i = choose|i: int| 0 <= i < rest.len() && holds_for((#[trigger] rest[i]).0.conds, more, truth);
        assert(holds_for(all[ones.len() + i].0.conds, more, truth));
    }
    if some_fork(all, 0, more, truth) {
        let i = choose|i: int| 0 <= i < all.len() && holds_for((#[trigger] all[i]).0.conds, more, truth);
        if i < ones.len() {
            assert(holds_for(ones[i].0.conds, mid, truth));
        } else {
            assert(holds_for(rest[i - ones.len()].0.conds, more, truth));
        }
    }
    assert forall|i: int|
        0 <= i < all.len() && holds_for((#[trigger] all[i]).0.conds, more, truth) implies bare(all[i].0) == does
        && all[i].1 == value by {
        if i < ones.len() {
            assert(holds_for(ones[i].0.conds, mid, truth));
        } else {
            assert(holds_for(rest[i - ones.len()].0.conds, more, truth));
        }
    }
}

/// A walk whose paths pin known conditions without contradiction.
pub open spec fn walk_valid(w: WalkView) -> bool {
    &&& are_atoms(MAX_ATOMS, w.atoms)
    &&& forall|i: int| 0 <= i < w.paths.len() ==> valid((#[trigger] w.paths[i]).0.conds, w.atoms.len())
}

/// The paths from `from` on that agree with the truth end as the run does.
pub open spec fn paths_as(
    w: WalkView,
    from: int,
    truth: spec_fn(Seq<char>) -> bool,
    ran: (StateView, Option<Seq<char>>),
) -> bool {
    forall|i: int|
        from <= i < w.paths.len() && holds_for((#[trigger] w.paths[i]).0.conds, w.atoms, truth) ==> ran == (
            bare(w.paths[i].0),
            Some(w.paths[i].1),
        )
}

pub open spec fn some_path(w: WalkView, from: int, truth: spec_fn(Seq<char>) -> bool) -> bool {
    exists|i: int| from <= i < w.paths.len() && holds_for((#[trigger] w.paths[i]).0.conds, w.atoms, truth)
}

/// The states that agree with the truth are where the run is when it has
/// reached the end.
spec fn ends_as(
    ends: Seq<StateView>,
    atoms: Seq<Seq<char>>,
    truth: spec_fn(Seq<char>) -> bool,
    ran: (StateView, Option<Seq<char>>),
) -> bool {
    forall|i: int|
        0 <= i < ends.len() && holds_for((#[trigger] ends[i]).conds, atoms, truth) ==> ran == (
            bare(ends[i]),
            None::<Seq<char>>,
        )
}

/// What a walk has added agrees with the run.
spec fn agrees(
    w0: WalkView,
    w1: WalkView,
    ends: Seq<StateView>,
    truth: spec_fn(Seq<char>) -> bool,
    ran: (StateView, Option<Seq<char>>),
) -> bool {
    &&& walk_valid(w1)
    &&& w0.atoms.is_prefix_of(w1.atoms)
    &&& w0.paths.is_prefix_of(w1.paths)
    &&& states_valid(ends, w1.atoms.len())
    &&& paths_as(w1, w0.paths.len() as int, truth, ran)
    &&& ends_as(ends, w1.atoms, truth, ran)
}

/// Something that a walk has added agrees with the truth.
spec fn something(w0: WalkView, w1: WalkView, ends: Seq<StateView>, truth: spec_fn(Seq<char>) -> bool) -> bool {
    some_path(w1, w0.paths.len() as int, truth) || some_state(ends, w1.atoms, truth)
}

proof fn lemma_some_later(
    states: Seq<StateView>,
    a: Seq<Seq<char>>,
    b: Seq<Seq<char>>,
    truth: spec_fn(Seq<char>) -> bool,
)
    requires
        states_valid(states, a.len()),
        a.is_prefix_of(b),
    ensures
        states_valid(states, b.len()),
        some_state(states, a, truth) == some_state(states, b, truth),
        forall|i: int|
            0 <= i < states.len() ==> holds_for((#[trigger] states[i]).conds, a, truth) == holds_for(
                states[i].conds,
                b,
                truth,
            ),
{
    assert forall|i: int| 0 <= i < states.len() implies valid((#[trigger] states[i]).conds, b.len()) && holds_for(
        states[i].conds,
        a,
        truth,
    ) == holds_for(states[i].conds, b, truth) by {
        lemma_known_later(states[i].conds, a, b, truth);
    }
    if some_state(states, a, truth) {
        let i = choose|i: int| 0 <= i < states.len() && holds_for((#[trigger] states[i]).conds, a, truth);
        assert(holds_for(states[i].conds, b, truth));
    }
    if some_state(states, b, truth) {
        let i = choose|i: int| 0 <= i < states.len() && holds_for((#[trigger] states[i]).conds, b, truth);
        assert(holds_for(states[i].conds, a, truth));
    }
}

/// The paths of an earlier walk are among those of a later one.
proof fn lemma_paths_later(
    w0: WalkView,
    w1: WalkView,
    w2: WalkView,
    truth: spec_fn(Seq<char>) -> bool,
)
    requires
        walk_valid(w1),
        w0.paths.is_prefix_of(w1.paths),
        w1.atoms.is_prefix_of(w2.atoms),
        w1.paths.is_prefix_of(w2.paths),
    ensures
        w0.paths.is_prefix_of(w2.paths),
        forall|i: int|
            0 <= i < w1.paths.len() ==> (#[trigger] w2.paths[i]) == w1.paths[i] && holds_for(
                w1.paths[i].0.conds,
                w1.atoms,
                truth,
            ) == holds_for(w1.paths[i].0.conds, w2.atoms, truth),
        some_path(w2, w0.paths.len() as int, truth) == (some_path(w1, w0.paths.len() as int, truth) || some_path(
            w2,
            w1.paths.len() as int,
            truth,
        )),
{
    let n = w0.paths.len() as int;
    assert forall|i: int| 0 <= i < w1.paths.len() implies (#[trigger] w2.paths[i]) == w1.paths[i] && holds_for(
        w1.paths[i].0.conds,
        w1.atoms,
        truth,
    ) == holds_for(w1.paths[i].0.conds, w2.atoms, truth) by {
        assert(valid(w1.paths[i].0.conds, w1.atoms.len()));
        lemma_known_later(w1.paths[i].0.conds, w1.atoms, w2.atoms, truth);
    }
    assert forall|i: int| 0 <= i < w0.paths.len() implies w0.paths[i] == w2.paths[i] by {
        assert(w0.paths[i] == w1.paths[i]);
        assert(w1.paths[i] == w2.paths[i]);
    }
    assert(w0.paths =~= w2.paths.subrange(0, n));
    if some_path(w1, n, truth) {
        let i = choose|i: int| n <= i < w1.paths.len() && holds_for((#[trigger] w1.paths[i]).0.conds, w1.atoms, truth);
        assert(holds_for(w2.paths[i].0.conds, w2.atoms, truth));
    }
    if some_path(w2, n, truth) {
        let i = choose|i: int| n <= i < w2.paths.len() && holds_for((#[trigger] w2.paths[i]).0.conds, w2.atoms, truth);
        if i < w1.paths.len() {
            assert(holds_for(w1.paths[i].0.conds, w1.atoms, truth));
        }
    }
    if some_path(w2, w1.paths.len() as int, truth) {
        let i = choose|i: int|
            w1.paths.len() <= i < w2.paths.len() && holds_for((#[trigger] w2.paths[i]).0.conds, w2.atoms, truth);
        assert(n <= i);
    }
}

/// One part of a walk after the other, both on the way of one run.
proof fn lemma_then(
    w0: WalkView,
    w1: WalkView,
    ends: Seq<StateView>,
    ran: (StateView, Option<Seq<char>>),
    w2: WalkView,
    last: Seq<StateView>,
    next: (StateView, Option<Seq<char>>),
    truth: spec_fn(Seq<char>) -> bool,
)
    requires
        agrees(w0, w1, ends, truth, ran),
        agrees(w1, w2, last, truth, next),
        something(w1, w2, last, truth) == some_state(ends, w1.atoms, truth),
    ensures
        agrees(
            w0,
            w2,
            last,
            truth,
            if ran.1 is Some {
                ran
            } else {
                next
            },
        ),
        something(w0, w2, last, truth) == something(w0, w1, ends, truth),
{
    lemma_paths_later(w0, w1, w2, truth);
    let n = w0.paths.len() as int;
    let all = if ran.1 is Some {
        ran
    } else {
        next
    };
    if ran.1 is Some {
        if some_state(ends, w1.atoms, truth) {
            let i = choose|i: int| 0 <= i < ends.len() && holds_for((#[trigger] ends[i]).conds, w1.atoms, truth);
            assert(ran == (bare(ends[i]), None::<Seq<char>>));
        }
        assert(!something(w1, w2, last, truth));
    } else {
        if some_path(w1, n, truth) {
            let i = choose|i: int|
                n <= i < w1.paths.len() && holds_for((#[trigger] w1.paths[i]).0.conds, w1.atoms, truth);
            assert(ran == (bare(w1.paths[i].0), Some(w1.paths[i].1)));
        }
    }
    assert forall|i: int|
        n <= i < w2.paths.len() && holds_for((#[trigger] w2.paths[i]).0.conds, w2.atoms, truth) implies all == (
        bare(w2.paths[i].0),
        Some(w2.paths[i].1),
    ) by {
        if i < w1.paths.len() {
            assert(holds_for(w1.paths[i].0.conds, w1.atoms, truth));
            assert(some_path(w1, n, truth));
        } else {
            assert(some_path(w2, w1.paths.len() as int, truth));
        }
    }
    assert forall|i: int|
        0 <= i < last.len() && holds_for((#[trigger] last[i]).conds, w2.atoms, truth) implies all == (
        bare(last[i]),
        None::<Seq<char>>,
    ) by {
        assert(some_state(last, w2.atoms, truth));
    }
}

/// Two parts of a walk from different states of one run.
proof fn lemma_beside(
    w0: WalkView,
    w1: WalkView,
    ends: Seq<StateView>,
    w2: WalkView,
    more: Seq<StateView>,
    ran: (StateView, Option<Seq<char>>),
    truth: spec_fn(Seq<char>) -> bool,
)
    requires
        agrees(w0, w1, ends, truth, ran),
        agrees(w1, w2, more, truth, ran),
    ensures
        agrees(w0, w2, ends + more, truth, ran),
        something(w0, w2, ends + more, truth) == (something(w0, w1, ends, truth) || something(w1, w2, more, truth)),
{
    lemma_paths_later(w0, w1, w2, truth);
    lemma_some_later(ends, w1.atoms, w2.atoms, truth);
    let n = w0.paths.len() as int;
    let all = ends + more;
    assert forall|i: int| 0 <= i < all.len() implies #[trigger] all[i] == if i < ends.len() {
        ends[i]
    } else {
        more[i - ends.len()]
    } by {}
    assert forall|i: int| 0 <= i < all.len() implies valid((#[trigger] all[i]).conds, w2.atoms.len()) by {
        if i < ends.len() {
            assert(valid(ends[i].conds, w2.atoms.len()));
        } else {
            assert(valid(more[i - ends.len()].conds, w2.atoms.len()));
        }
    }
    if some_state(ends, w2.atoms, truth) {
        let i = choose|i: int| 0 <= i < ends.len() && holds_for((#[trigger] ends[i]).conds, w2.atoms, truth);
        assert(holds_for(all[i].conds, w2.atoms, truth));
    }
    if some_state(more, w2.atoms, truth) {
        let i = choose|i: int| 0 <= i < more.len() && holds_for((#[trigger] more[i]).conds, w2.atoms, truth);
        assert(holds_for(all[ends.len() + i].conds, w2.atoms, truth));
    }
    if some_state(all, w2.atoms, truth) {
        let i = choose|i: int| 0 <= i < all.len() && holds_for((#[trigger] all[i]).conds, w2.atoms, truth);
        if i < ends.len() {
            assert(holds_for(ends[i].conds, w2.atoms, truth));
        } else {
            assert(holds_for(more[i - ends.len()].conds, w2.atoms, truth));
        }
    }
    assert forall|i: int|
        n <= i < w2.paths.len() && holds_for((#[trigger] w2.paths[i]).0.conds, w2.atoms, truth) implies ran == (
        bare(w2.paths[i].0),
        Some(w2.paths[i].1),
    ) by {
        if i < w1.paths.len() {
            assert(holds_for(w1.paths[i].0.conds, w1.atoms, truth));
        }
    }
    assert forall|i: int|
        0 <= i < all.len() && holds_for((#[trigger] all[i]).conds, w2.atoms, truth) implies ran == (
        bare(all[i]),
        None::<Seq<char>>,
    ) by {
        if i < ends.len() {
            assert(holds_for(ends[i].conds, w1.atoms, truth));
        } else {
            assert(holds_for(more[i - ends.len()].conds, w2.atoms, truth));
        }
    }
}

proof fn lemma_declared(
    t: Seq<NodeView>,
    lo: int,
    hi: int,
    locals: Seq<Seq<char>>,
    others: Seq<Seq<char>>,
    st: StateView,
)
    ensures
        declared(t, lo, hi, locals, st).1.conds == st.conds,
        bare(declared(t, lo, hi, locals, st).1) == declared(t, lo, hi, others, bare(st)).1,
    decreases hi - lo,
{
    if lo < hi {
        let end = node_end(t, lo, hi);
        if t[lo].named && t[lo].kind == "variable_declarator"@ {
            match child_in_role(t, lo, end, "name"@) {
                None => {
                    lemma_declared(t, end, hi, locals, others, st);
                },
                Some((a, _)) => {
                    let name = normalized(t[a].text);
                    let more = crate::text_set::including(locals, name);
                    let others_more = crate::text_set::including(others, name);
                    match child_in_role(t, lo, end, "value"@) {
                        Some((b, _)) => {
                            let after = StateView {
                                writes: crate::lift::symbolic::with_write(st.writes, name, normalized(t[b].text)),
                                ..st
                            };
                            lemma_declared(t, end, hi, more, others_more, after);
                        },
                        None => {
                            lemma_declared(t, end, hi, more, others_more, st);
                        },
                    }
                },
            }
        } else {
            lemma_declared(t, end, hi, locals, others, st);
        }
    }
}

proof fn lemma_effect(t: Seq<NodeView>, lo: int, hi: int, st: StateView)
    ensures
        effect(t, lo, hi, st).conds == st.conds,
        bare(effect(t, lo, hi, st)) == effect(t, lo, hi, bare(st)),
{
    assert(bare(effect(t, lo, hi, st)) =~= effect(t, lo, hi, bare(st)));
}

/// A walk that only notes one more path.
proof fn lemma_ended(
    w: WalkView,
    st: StateView,
    outcome: Seq<char>,
    truth: spec_fn(Seq<char>) -> bool,
)
    requires
        walk_valid(w),
        valid(st.conds, w.atoms.len()),
    ensures
        agrees(w, w.ended(st, outcome), Seq::empty(), truth, (bare(st), Some(outcome))),
        something(w, w.ended(st, outcome), Seq::empty(), truth) == holds_for(st.conds, w.atoms, truth),
{
    let next = w.ended(st, outcome);
    assert(next.paths[w.paths.len() as int] == (st, outcome));
    assert(w.paths =~= next.paths.subrange(0, w.paths.len() as int));
    assert forall|i: int| 0 <= i < next.paths.len() implies valid(
        (#[trigger] next.paths[i]).0.conds,
        next.atoms.len(),
    ) by {
        if i < w.paths.len() {
            assert(valid(w.paths[i].0.conds, w.atoms.len()));
        }
    }
    if holds_for(st.conds, w.atoms, truth) {
        assert(holds_for(next.paths[w.paths.len() as int].0.conds, next.atoms, truth));
    }
}

/// A walk that goes nowhere.
proof fn lemma_stayed(w0: WalkView, w: WalkView, st: StateView, truth: spec_fn(Seq<char>) -> bool)
    requires
        walk_valid(w),
        w0.atoms.is_prefix_of(w.atoms),
        w0.paths == w.paths,
        valid(st.conds, w.atoms.len()),
    ensures
        agrees(w0, w, seq![st], truth, (bare(st), None)),
        something(w0, w, seq![st], truth) == holds_for(st.conds, w.atoms, truth),
        agrees(w0, w, Seq::empty(), truth, (bare(st), None)),
        !something(w0, w, Seq::empty(), truth),
{
    let one = seq![st];
    assert(w0.paths =~= w.paths.subrange(0, w0.paths.len() as int));
    assert(one[0] == st);
    if holds_for(st.conds, w.atoms, truth) {
        assert(holds_for(one[0].conds, w.atoms, truth));
    }
}

/// Knowing more conditions changes nothing of what was found.
proof fn lemma_knowing(w: WalkView, more: Seq<Seq<char>>, truth: spec_fn(Seq<char>) -> bool)
    requires
        walk_valid(w),
        w.atoms.is_prefix_of(more),
        are_atoms(MAX_ATOMS, more),
    ensures
        walk_valid(w.knowing(more)),
{
    let next = w.knowing(more);
    assert forall|i: int| 0 <= i < next.paths.len() implies valid(
        (#[trigger] next.paths[i]).0.conds,
        next.atoms.len(),
    ) by {
        assert(valid(w.paths[i].0.conds, w.atoms.len()));
        lemma_known_later(w.paths[i].0.conds, w.atoms, more, truth);
    }
}

/// What is found from a walk that knows more is found from the walk.
proof fn lemma_from_knowing(
    w: WalkView,
    more: Seq<Seq<char>>,
    w1: WalkView,
    ends: Seq<StateView>,
    ran: (StateView, Option<Seq<char>>),
    truth: spec_fn(Seq<char>) -> bool,
)
    requires
        w.atoms.is_prefix_of(more),
        agrees(w.knowing(more), w1, ends, truth, ran),
    ensures
        agrees(w, w1, ends, truth, ran),
        something(w, w1, ends, truth) == something(w.knowing(more), w1, ends, truth),
{
}

/// Walking the statements finds what the run does.
proof fn lemma_walk(
    t: Seq<NodeView>,
    terminals: Seq<Seq<char>>,
    lo: int,
    hi: int,
    st: StateView,
    later: Seq<(int, int)>,
    w: WalkView,
    truth: spec_fn(Seq<char>) -> bool,
)
    requires
        walk_valid(w),
        valid(st.conds, w.atoms.len()),
    ensures
        walk(t, terminals, lo, hi, st, later, w) matches Ok((w1, ends)) ==> agrees(
            w,
            w1,
            ends,
            truth,
            run(t, terminals, lo, hi, bare(st), truth),
        ) && something(w, w1, ends, truth) == holds_for(st.conds, w.atoms, truth),
    decreases hi - lo, 3nat, 0int,
{
    if w.paths.len() <= MAX_PATHS && w.steps < crate::lift::decision_walk::MAX_STEPS {
        let w2 = WalkView { steps: w.steps + 1, ..w };
        let p = stmt_at(t, lo, hi);
        assert(walk_valid(w2));
        if p >= hi {
            lemma_stayed(w, w2, st, truth);
        } else {
            let e = node_end(t, p, hi);
            let beyond = later.push((e, hi));
            if t[p].kind == "return_statement"@ {
                lemma_ended(w2, st, return_text(t, p, e, st), truth);
            } else if t[p].kind == "throw_statement"@ {
                lemma_ended(w2, st, throw_text(t, p, e), truth);
            } else if t[p].kind == "local_variable_declaration"@ {
                let (locals, after) = declared(t, p + 1, e, w.locals, st);
                lemma_declared(t, p + 1, e, w.locals, Seq::empty(), st);
                lemma_walk(t, terminals, e, hi, after, later, WalkView { locals, ..w2 }, truth);
            } else if t[p].kind == "expression_statement"@ {
                match first_named(t, p, e) {
                    Some((a, b)) => {
                        if is_terminal(t, a, b, terminals) {
                            lemma_ended(w2, st, normalized(t[a].text), truth);
                        } else {
                            lemma_effect(t, a, b, st);
                            lemma_walk(t, terminals, e, hi, effect(t, a, b, st), later, w2, truth);
                        }
                    },
                    None => {
                        lemma_walk(t, terminals, e, hi, st, later, w2, truth);
                    },
                }
            } else if t[p].kind == "if_statement"@ {
                if let Some((c, d)) = child_in_role(t, p, e, "condition"@) {
                    lemma_eval(t, c, d, w.atoms, st, truth);
                    if let Ok((more, outcomes)) = eval(t, c, d, w.atoms, st) {
                        let value = is_true(t, c, d, truth);
                        lemma_knowing(w2, more, truth);
                        let w3 = w2.knowing(more);
                        lemma_branches(t, terminals, p, e, outcomes, 0, beyond, w3, truth, bare(st), value);
                        let branches = walk_branches(t, terminals, p, e, outcomes, 0, beyond, w3);
                        if let Ok((w4, ends)) = branches {
                            let ran = run_branch(t, terminals, p, e, value, bare(st), truth);
                            lemma_from_knowing(w2, more, w4, ends, ran, truth);
                            lemma_join(t, terminals, e, hi, w2, w4, ends, ran, later, truth);
                        } else {
                            assert(join(t, terminals, e, hi, branches, later) is Err);
                        }
                    }
                }
            } else if t[p].kind == "block"@ {
                lemma_walk(t, terminals, p + 1, e, st, beyond, w2, truth);
                if let Ok((w3, ends)) = walk(t, terminals, p + 1, e, st, beyond, w2) {
                    let ran = run(t, terminals, p + 1, e, bare(st), truth);
                    assert(all_do(ends, w3.atoms, truth, ran.0));
                    lemma_each(t, terminals, e, hi, ends, 0, later, w3, truth, ran.0);
                    assert(ends.skip(0) =~= ends);
                    if let Ok((w4, last)) = walk_each(t, terminals, e, hi, ends, 0, later, w3) {
                        lemma_then(w2, w3, ends, ran, w4, last, run(t, terminals, e, hi, ran.0, truth), truth);
                    }
                }
            } else if is_switch(t[p]) {
                match switch_model(t, p, e) {
                    Some(model) => {
                        lemma_arms(t, terminals, p, e, model, 0, st, beyond, w2, truth);
                        let branches = walk_arms(t, terminals, p, e, model, 0, st, beyond, w2);
                        if let Ok((w4, ends)) = branches {
                            let ran = run_cases(t, terminals, p, e, model, 0, bare(st), truth);
                            lemma_join(t, terminals, e, hi, w2, w4, ends, ran, later, truth);
                        } else {
                            assert(join(t, terminals, e, hi, branches, later) is Err);
                        }
                    },
                    None => {
                        lemma_walk(t, terminals, e, hi, st, later, w2.passing(p, e, t), truth);
                    },
                }
            } else if is_unmodeled(t[p]) {
                lemma_walk(t, terminals, e, hi, st, later, w2.passing(p, e, t), truth);
            } else {
                lemma_walk(t, terminals, e, hi, st, later, w2, truth);
            }
        }
    }
}

/// Where branches meet, the walk goes on as the run does.
proof fn lemma_join(
    t: Seq<NodeView>,
    terminals: Seq<Seq<char>>,
    lo: int,
    hi: int,
    w0: WalkView,
    w: WalkView,
    ends: Seq<StateView>,
    ran: (StateView, Option<Seq<char>>),
    later: Seq<(int, int)>,
    truth: spec_fn(Seq<char>) -> bool,
)
    requires
        agrees(w0, w, ends, truth, ran),
    ensures
        join(t, terminals, lo, hi, Ok::<(WalkView, Seq<StateView>), Seq<char>>((w, ends)), later) matches Ok((w1, last))
            ==> agrees(
            w0,
            w1,
            last,
            truth,
            if ran.1 is Some {
                ran
            } else {
                run(t, terminals, lo, hi, ran.0, truth)
            },
        ) && something(w0, w1, last, truth) == something(w0, w, ends, truth),
    decreases hi - lo, 5nat, 0int,
{
    let open = open_conditions(t, w.atoms, later.push((lo, hi)));
    let merged = merged_states(ends, open);
    assert(all_do(ends, w.atoms, truth, ran.0));
    law_merging_keeps_cases(ends, open, w.atoms, truth, ran.0);
    if merged.len() + w.paths.len() <= MAX_PATHS {
        lemma_each(t, terminals, lo, hi, merged, 0, later, w, truth, ran.0);
        assert(merged.skip(0) =~= merged);
        if let Ok((w1, last)) = walk_each(t, terminals, lo, hi, merged, 0, later, w) {
            lemma_then(w0, w, ends, ran, w1, last, run(t, terminals, lo, hi, ran.0, truth), truth);
        }
    }
}

/// Walking on from several states finds what the run does from what they have done.
proof fn lemma_each(
    t: Seq<NodeView>,
    terminals: Seq<Seq<char>>,
    lo: int,
    hi: int,
    states: Seq<StateView>,
    i: int,
    later: Seq<(int, int)>,
    w: WalkView,
    truth: spec_fn(Seq<char>) -> bool,
    does: StateView,
)
    requires
        0 <= i <= states.len(),
        walk_valid(w),
        states_valid(states, w.atoms.len()),
        all_do(states, w.atoms, truth, does),
    ensures
        walk_each(t, terminals, lo, hi, states, i, later, w) matches Ok((w1, ends)) ==> agrees(
            w,
            w1,
            ends,
            truth,
            run(t, terminals, lo, hi, does, truth),
        ) && something(w, w1, ends, truth) == some_state(states.skip(i), w.atoms, truth),
    decreases hi - lo, 4nat, states.len() - i,
{
    let ran = run(t, terminals, lo, hi, does, truth);
    let rest = states.skip(i);
    if i >= states.len() {
        assert(w.paths =~= w.paths.subrange(0, w.paths.len() as int));
        assert(!some_state(rest, w.atoms, truth));
    } else {
        let st = states[i];
        let here = holds_for(st.conds, w.atoms, truth);
        assert(valid(states[i].conds, w.atoms.len()));
        lemma_walk(t, terminals, lo, hi, st, later, w, truth);
        if let Ok((w1, ends)) = walk(t, terminals, lo, hi, st, later, w) {
            if here {
                assert(bare(states[i]) == does);
            } else {
                lemma_unreached(w, w1, ends, run(t, terminals, lo, hi, bare(st), truth), ran, truth);
            }
            lemma_some_later(states, w.atoms, w1.atoms, truth);
            assert(all_do(states, w1.atoms, truth, does)) by {
                assert forall|k: int|
                    0 <= k < states.len() && holds_for((#[trigger] states[k]).conds, w1.atoms, truth) implies bare(
                    states[k],
                ) == does by {
                    assert(holds_for(states[k].conds, w.atoms, truth));
                }
            }
            lemma_each(t, terminals, lo, hi, states, i + 1, later, w1, truth, does);
            if let Ok((w2, more)) = walk_each(t, terminals, lo, hi, states, i + 1, later, w1) {
                lemma_beside(w, w1, ends, w2, more, ran, truth);
                lemma_some_skip(states, i, w.atoms, truth);
                lemma_skip_later(states, i + 1, w.atoms, w1.atoms, truth);
            }
        }
    }
}

/// Where nothing is reached, anything can be said of it.
proof fn lemma_unreached(
    w: WalkView,
    w1: WalkView,
    ends: Seq<StateView>,
    ran: (StateView, Option<Seq<char>>),
    other: (StateView, Option<Seq<char>>),
    truth: spec_fn(Seq<char>) -> bool,
)
    requires
        agrees(w, w1, ends, truth, ran),
        !something(w, w1, ends, truth),
    ensures
        agrees(w, w1, ends, truth, other),
{
    assert forall|i: int|
        w.paths.len() <= i < w1.paths.len() && holds_for((#[trigger] w1.paths[i]).0.conds, w1.atoms, truth) implies other
        == (bare(w1.paths[i].0), Some(w1.paths[i].1)) by {
        assert(some_path(w1, w.paths.len() as int, truth));
    }
    assert forall|i: int|
        0 <= i < ends.len() && holds_for((#[trigger] ends[i]).conds, w1.atoms, truth) implies other == (
        bare(ends[i]),
        None::<Seq<char>>,
    ) by {
        assert(some_state(ends, w1.atoms, truth));
    }
}

proof fn lemma_some_skip(states: Seq<StateView>, i: int, atoms: Seq<Seq<char>>, truth: spec_fn(Seq<char>) -> bool)
    requires
        0 <= i < states.len(),
    ensures
        some_state(states.skip(i), atoms, truth) == (holds_for(states[i].conds, atoms, truth) || some_state(
            states.skip(i + 1),
            atoms,
            truth,
        )),
{
    let a = states.skip(i);
    let b = states.skip(i + 1);
    assert(a[0] == states[i]);
    if holds_for(states[i].conds, atoms, truth) {
        assert(holds_for(a[0].conds, atoms, truth));
    }
    if some_state(b, atoms, truth) {
        let k = choose|k: int| 0 <= k < b.len() && holds_for((#[trigger] b[k]).conds, atoms, truth);
        assert(a[k + 1] == b[k]);
        assert(holds_for(a[k + 1].conds, atoms, truth));
    }
    if some_state(a, atoms, truth) {
        let k = choose|k: int| 0 <= k < a.len() && holds_for((#[trigger] a[k]).conds, atoms, truth);
        if k > 0 {
            assert(b[k - 1] == a[k]);
            assert(holds_for(b[k - 1].conds, atoms, truth));
        }
    }
}

proof fn lemma_skip_later(
    states: Seq<StateView>,
    i: int,
    a: Seq<Seq<char>>,
    b: Seq<Seq<char>>,
    truth: spec_fn(Seq<char>) -> bool,
)
    requires
        0 <= i <= states.len(),
        states_valid(states, a.len()),
        a.is_prefix_of(b),
    ensures
        some_state(states.skip(i), a, truth) == some_state(states.skip(i), b, truth),
{
    let rest = states.skip(i);
    assert forall|k: int| 0 <= k < rest.len() implies valid((#[trigger] rest[k]).conds, a.len()) by {
        assert(valid(states[i + k].conds, a.len()));
    }
    lemma_some_later(rest, a, b, truth);
}

/// Walking the branches of a conditional finds what the run does in the one
/// that is taken.
proof fn lemma_branches(
    t: Seq<NodeView>,
    terminals: Seq<Seq<char>>,
    lo: int,
    hi: int,
    outcomes: Seq<(StateView, bool)>,
    i: int,
    later: Seq<(int, int)>,
    w: WalkView,
    truth: spec_fn(Seq<char>) -> bool,
    does: StateView,
    value: bool,
)
    requires
        0 <= i <= outcomes.len(),
        walk_valid(w),
        forks_valid(outcomes, w.atoms.len()),
        forks_do(outcomes, i, w.atoms, truth, does, value),
    ensures
        walk_branches(t, terminals, lo, hi, outcomes, i, later, w) matches Ok((w1, ends)) ==> agrees(
            w,
            w1,
            ends,
            truth,
            run_branch(t, terminals, lo, hi, value, does, truth),
        ) && something(w, w1, ends, truth) == some_fork(outcomes, i, w.atoms, truth),
    decreases hi - lo, 1nat, outcomes.len() - i,
{
    let ran = run_branch(t, terminals, lo, hi, value, does, truth);
    if i >= outcomes.len() {
        assert(w.paths =~= w.paths.subrange(0, w.paths.len() as int));
        assert(!some_fork(outcomes, i, w.atoms, truth));
    } else {
        let (st, v) = outcomes[i];
        let here = holds_for(st.conds, w.atoms, truth);
        assert(valid(outcomes[i].0.conds, w.atoms.len()));
        let own = run_branch(t, terminals, lo, hi, v, bare(st), truth);
        let role = if v {
            "consequence"@
        } else {
            "alternative"@
        };
        let first = match child_in_role(t, lo, hi, role) {
            Some((a, b)) => if t[a].kind == "block"@ {
                walk(t, terminals, a + 1, b, st, later, w)
            } else {
                walk(t, terminals, a, b, st, later, w)
            },
            None => Ok((w, seq![st])),
        };
        match child_in_role(t, lo, hi, role) {
            Some((a, b)) => {
                if t[a].kind == "block"@ {
                    lemma_walk(t, terminals, a + 1, b, st, later, w, truth);
                } else {
                    lemma_walk(t, terminals, a, b, st, later, w, truth);
                }
            },
            None => {
                lemma_stayed(w, w, st, truth);
            },
        }
        if let Ok((w1, ends)) = first {
            assert(agrees(w, w1, ends, truth, own));
            if !here {
                lemma_unreached(w, w1, ends, own, ran, truth);
            } else {
                assert(bare(outcomes[i].0) == does && outcomes[i].1 == value);
            }
            assert forall|k: int| 0 <= k < outcomes.len() implies valid(
                (#[trigger] outcomes[k]).0.conds,
                w1.atoms.len(),
            ) && holds_for(outcomes[k].0.conds, w.atoms, truth) == holds_for(
                outcomes[k].0.conds,
                w1.atoms,
                truth,
            ) by {
                lemma_known_later(outcomes[k].0.conds, w.atoms, w1.atoms, truth);
            }
            lemma_branches(t, terminals, lo, hi, outcomes, i + 1, later, w1, truth, does, value);
            if let Ok((w2, more)) = walk_branches(t, terminals, lo, hi, outcomes, i + 1, later, w1) {
                lemma_beside(w, w1, ends, w2, more, ran, truth);
                lemma_fork_step(outcomes, i, w.atoms, w1.atoms, truth);
            }
        }
    }
}

proof fn lemma_fork_step(
    outcomes: Seq<(StateView, bool)>,
    i: int,
    a: Seq<Seq<char>>,
    b: Seq<Seq<char>>,
    truth: spec_fn(Seq<char>) -> bool,
)
    requires
        0 <= i < outcomes.len(),
        forall|k: int|
            0 <= k < outcomes.len() ==> holds_for((#[trigger] outcomes[k]).0.conds, a, truth) == holds_for(
                outcomes[k].0.conds,
                b,
                truth,
            ),
    ensures
        some_fork(outcomes, i, a, truth) == (holds_for(outcomes[i].0.conds, a, truth) || some_fork(
            outcomes,
            i + 1,
            b,
            truth,
        )),
{
    if some_fork(outcomes, i + 1, b, truth) {
        let k = choose|k: int| i + 1 <= k < outcomes.len() && holds_for((#[trigger] outcomes[k]).0.conds, b, truth);
        assert(holds_for(outcomes[k].0.conds, a, truth));
    }
    if some_fork(outcomes, i, a, truth) {
        let k = choose|k: int| i <= k < outcomes.len() && holds_for((#[trigger] outcomes[k]).0.conds, a, truth);
        if k > i {
            assert(holds_for(outcomes[k].0.conds, b, truth));
        }
    }
}

/// None of the first `i` cases holds.
spec fn none_before(labels: Seq<Seq<char>>, i: int, truth: spec_fn(Seq<char>) -> bool) -> bool {
    all_false(labels.take(i), 0, truth)
}

/// Walking the cases of a switch finds what the run does in the one that is
/// taken.
proof fn lemma_arms(
    t: Seq<NodeView>,
    terminals: Seq<Seq<char>>,
    lo: int,
    hi: int,
    model: SwitchView,
    i: int,
    st: StateView,
    later: Seq<(int, int)>,
    w: WalkView,
    truth: spec_fn(Seq<char>) -> bool,
)
    requires
        0 <= i <= model.arms.len(),
        walk_valid(w),
        valid(st.conds, w.atoms.len()),
    ensures
        walk_arms(t, terminals, lo, hi, model, i, st, later, w) matches Ok((w1, ends)) ==> agrees(
            w,
            w1,
            ends,
            truth,
            run_cases(t, terminals, lo, hi, model, i, bare(st), truth),
        ) && something(w, w1, ends, truth) == (holds_for(st.conds, w.atoms, truth) && none_before(
            arm_labels(model.arms),
            i,
            truth,
        )),
    decreases hi - lo, 1nat, model.arms.len() - i,
{
    let labels = arm_labels(model.arms);
    let ran = run_cases(t, terminals, lo, hi, model, i, bare(st), truth);
    if i >= model.arms.len() {
        assert(labels.take(i) =~= labels);
        lemma_assign_false(MAX_ATOMS, w.atoms, st.conds, labels, 0, truth);
        match assign_false(MAX_ATOMS, w.atoms, st.conds, labels, 0) {
            Ok((more, Some(conds))) => {
                let next = st.with_conds(conds);
                lemma_knowing(w, more, truth);
                assert(bare(next) =~= bare(st));
                lemma_stayed(w, w.knowing(more), next, truth);
                if let Some((a, b)) = model.default {
                    if lo < a <= b <= hi {
                        lemma_walk(t, terminals, a, b, next, later, w.knowing(more), truth);
                        if let Ok((w1, ends)) = walk(t, terminals, a, b, next, later, w.knowing(more)) {
                            lemma_from_knowing(w, more, w1, ends, ran, truth);
                        }
                    }
                }
            },
            Ok((more, None)) => {
                lemma_knowing(w, more, truth);
                assert(w.paths =~= w.paths.subrange(0, w.paths.len() as int));
            },
            Err(_) => {},
        }
    } else {
        let arm = model.arms[i];
        assert(labels[i] == arm.label);
        lemma_case_step(labels, i, truth);
        lemma_enter(w.atoms, st.conds, labels.take(i), arm.label, truth);
        let before = holds_for(st.conds, w.atoms, truth) && none_before(labels, i, truth);
        match enter(w.atoms, st.conds, labels.take(i), arm.label) {
            Err(_) => {},
            Ok((more, None)) => {
                lemma_knowing(w, more, truth);
                lemma_known_later(st.conds, w.atoms, more, truth);
                let w1 = w.knowing(more);
                lemma_arms(t, terminals, lo, hi, model, i + 1, st, later, w1, truth);
                if let Ok((w2, ends)) = walk_arms(t, terminals, lo, hi, model, i + 1, st, later, w1) {
                    let rest = run_cases(t, terminals, lo, hi, model, i + 1, bare(st), truth);
                    lemma_from_knowing(w, more, w2, ends, rest, truth);
                    if truth(arm.label) {
                        lemma_unreached(w, w2, ends, rest, ran, truth);
                    }
                }
            },
            Ok((more, Some(conds))) => {
                let next = st.with_conds(conds);
                let w1 = w.knowing(more);
                lemma_knowing(w, more, truth);
                lemma_known_later(st.conds, w.atoms, more, truth);
                assert(bare(next) =~= bare(st));
                lemma_stayed(w, w1, next, truth);
                let inside = lo < arm.lo <= arm.hi <= hi;
                let own = if inside {
                    run(t, terminals, arm.lo, arm.hi, bare(st), truth)
                } else {
                    (bare(st), None)
                };
                let first = if inside {
                    walk(t, terminals, arm.lo, arm.hi, next, later, w1)
                } else {
                    Ok((w1, seq![next]))
                };
                if inside {
                    lemma_walk(t, terminals, arm.lo, arm.hi, next, later, w1, truth);
                }
                if let Ok((w2, ends)) = first {
                    if inside {
                        lemma_from_knowing(w, more, w2, ends, own, truth);
                    }
                    assert(agrees(w, w2, ends, truth, own));
                    lemma_known_later(st.conds, w.atoms, w2.atoms, truth);
                    lemma_arms(t, terminals, lo, hi, model, i + 1, st, later, w2, truth);
                    if let Ok((w3, others)) = walk_arms(t, terminals, lo, hi, model, i + 1, st, later, w2) {
                        let rest = run_cases(t, terminals, lo, hi, model, i + 1, bare(st), truth);
                        if truth(arm.label) {
                            lemma_unreached(w2, w3, others, rest, ran, truth);
                        } else {
                            lemma_unreached(w, w2, ends, own, ran, truth);
                        }
                        lemma_beside(w, w2, ends, w3, others, ran, truth);
                    }
                }
            },
        }
    }
}

proof fn lemma_case_step(labels: Seq<Seq<char>>, i: int, truth: spec_fn(Seq<char>) -> bool)
    requires
        0 <= i < labels.len(),
    ensures
        none_before(labels, i + 1, truth) == (none_before(labels, i, truth) && !truth(labels[i])),
{
    let a = labels.take(i);
    let b = labels.take(i + 1);
    assert(b[i] == labels[i]);
    if none_before(labels, i + 1, truth) {
        assert(!truth(b[i]));
        assert forall|j: int| 0 <= j < a.len() implies !truth(#[trigger] a[j]) by {
            assert(a[j] == b[j]);
        }
    }
    if none_before(labels, i, truth) && !truth(labels[i]) {
        assert forall|j: int| 0 <= j < b.len() implies !truth(#[trigger] b[j]) by {
            if j < i {
                assert(a[j] == b[j]);
            }
        }
    }
}

proof fn lemma_enter(
    atoms: Seq<Seq<char>>,
    conds: Seq<(usize, bool)>,
    earlier: Seq<Seq<char>>,
    label: Seq<char>,
    truth: spec_fn(Seq<char>) -> bool,
)
    requires
        are_atoms(MAX_ATOMS, atoms),
        valid(conds, atoms.len()),
    ensures
        enter(atoms, conds, earlier, label) matches Ok((more, left)) ==> pinned_well(
            MAX_ATOMS,
            atoms,
            more,
            left,
            truth,
            holds_for(conds, atoms, truth) && all_false(earlier, 0, truth) && truth(label),
        ),
{
    lemma_assign_false(MAX_ATOMS, atoms, conds, earlier, 0, truth);
    if let Ok((mid, Some(next))) = assign_false(MAX_ATOMS, atoms, conds, earlier, 0) {
        lemma_assign(MAX_ATOMS, mid, next, label, true, truth);
    }
}

/// A row of a decision table applies when its values agree with the truth.
pub open spec fn row_applies(
    when: Seq<Tri>,
    variables: Seq<Seq<char>>,
    truth: spec_fn(Seq<char>) -> bool,
) -> bool {
    forall|i: int| 0 <= i < when.len() ==> #[trigger] tri_applies(when[i], truth(variables[i]))
}

pub open spec fn tri_applies(value: Tri, holds: bool) -> bool {
    match value {
        Tri::True => holds,
        Tri::False => !holds,
        Tri::Any => true,
    }
}

/// The value of a condition in a row is the one that the path pins it to.
proof fn lemma_row_value(conds: Seq<(usize, bool)>, n: nat, i: int)
    requires
        0 <= i < n,
        valid(conds, n),
    ensures
        row_inputs(conds, n).len() == n,
        match row_inputs(conds, n)[i] {
            Tri::True => exists|k: int| 0 <= k < conds.len() && (#[trigger] conds[k]) == (i as usize, true),
            Tri::False => exists|k: int| 0 <= k < conds.len() && (#[trigger] conds[k]) == (i as usize, false),
            Tri::Any => forall|k: int| 0 <= k < conds.len() ==> (#[trigger] conds[k]).0 != i,
        },
    decreases conds.len(),
{
    if conds.len() > 0 {
        let front = conds.drop_last();
        assert(valid(front, n)) by {
            assert forall|j: int, k: int|
                0 <= j < front.len() && 0 <= k < front.len() && (#[trigger] front[j]).0 == (#[trigger] front[k]).0 implies front[j].1
                == front[k].1 by {
                assert(conds[j].0 == conds[k].0);
            }
            assert forall|k: int| 0 <= k < front.len() implies (#[trigger] front[k]).0 < n by {
                assert(conds[k].0 < n);
            }
        }
        lemma_row_value(front, n, i);
        let last = conds.last();
        assert(conds[conds.len() - 1] == last);
        assert forall|k: int| 0 <= k < front.len() implies front[k] == #[trigger] conds[k] by {}
        if last.0 == i {
            assert(conds[conds.len() - 1] == (i as usize, last.1));
        } else {
            match row_inputs(front, n)[i] {
                Tri::True => {
                    let k = choose|k: int| 0 <= k < front.len() && (#[trigger] front[k]) == (i as usize, true);
                    assert(conds[k] == (i as usize, true));
                },
                Tri::False => {
                    let k = choose|k: int| 0 <= k < front.len() && (#[trigger] front[k]) == (i as usize, false);
                    assert(conds[k] == (i as usize, false));
                },
                Tri::Any => {
                    assert forall|k: int| 0 <= k < conds.len() implies (#[trigger] conds[k]).0 != i by {
                        if k < front.len() {
                            assert(front[k].0 != i);
                        }
                    }
                },
            }
        }
    }
}

/// A path's row applies exactly when its conditions agree with the truth.
pub proof fn lemma_row_applies(
    cap: usize,
    conds: Seq<(usize, bool)>,
    atoms: Seq<Seq<char>>,
    truth: spec_fn(Seq<char>) -> bool,
)
    requires
        are_atoms(cap, atoms),
        valid(conds, atoms.len()),
    ensures
        row_applies(row_inputs(conds, atoms.len()), atoms, truth) == holds_for(conds, atoms, truth),
{
    let when = row_inputs(conds, atoms.len());
    lemma_row_inputs(conds, atoms.len());
    if holds_for(conds, atoms, truth) {
        reveal(are_atoms);
        assert forall|i: int| 0 <= i < when.len() implies #[trigger] tri_applies(when[i], truth(atoms[i])) by {
            lemma_row_value(conds, atoms.len(), i);
            match when[i] {
                Tri::True => {
                    let k = choose|k: int| 0 <= k < conds.len() && (#[trigger] conds[k]) == (i as usize, true);
                    assert(meets(conds[k], atoms, truth));
                },
                Tri::False => {
                    let k = choose|k: int| 0 <= k < conds.len() && (#[trigger] conds[k]) == (i as usize, false);
                    assert(meets(conds[k], atoms, truth));
                },
                Tri::Any => {},
            }
        }
    }
    if row_applies(when, atoms, truth) {
        assert forall|k: int| 0 <= k < conds.len() implies #[trigger] meets(conds[k], atoms, truth) by {
            let i = conds[k].0 as int;
            assert(i < atoms.len());
            lemma_row_value(conds, atoms.len(), i);
            assert(tri_applies(when[i], truth(atoms[i])));
            match when[i] {
                Tri::True => {
                    let j = choose|j: int| 0 <= j < conds.len() && (#[trigger] conds[j]) == (i as usize, true);
                    assert(conds[j].0 == conds[k].0);
                },
                Tri::False => {
                    let j = choose|j: int| 0 <= j < conds.len() && (#[trigger] conds[j]) == (i as usize, false);
                    assert(conds[j].0 == conds[k].0);
                },
                Tri::Any => {},
            }
        }
    }
}

/// How the method `lo..hi` ends when it is run with the conditions as given.
pub open spec fn method_run(
    t: Seq<NodeView>,
    terminals: Seq<Seq<char>>,
    lo: int,
    hi: int,
    truth: spec_fn(Seq<char>) -> bool,
) -> (StateView, Seq<char>) {
    match child_in_role(t, lo, hi, "body"@) {
        Some((a, b)) => match run(t, terminals, a + 1, b, StateView::start(), truth) {
            (does, Some(outcome)) => (does, outcome),
            (does, None) => (does, "(fall-through)"@),
        },
        None => (StateView::start(), "(fall-through)"@),
    }
}

pub proof fn lemma_method(
    t: Seq<NodeView>,
    terminals: Seq<Seq<char>>,
    lo: int,
    hi: int,
    w: WalkView,
    truth: spec_fn(Seq<char>) -> bool,
)
    requires
        method_walk(t, terminals, lo, hi) == Ok::<Option<WalkView>, Seq<char>>(Some(w)),
    ensures
        walk_valid(w),
        some_path(w, 0, truth),
        forall|i: int|
            0 <= i < w.paths.len() && holds_for((#[trigger] w.paths[i]).0.conds, w.atoms, truth) ==> method_run(
                t,
                terminals,
                lo,
                hi,
                truth,
            ) == (bare(w.paths[i].0), w.paths[i].1),
{
    let (a, b) = child_in_role(t, lo, hi, "body"@)->Some_0;
    let start = walk_start(parameter_names(t, lo, hi));
    let st = StateView::start();
    assert(bare(st) =~= st);
    reveal(are_atoms);
    lemma_walk(t, terminals, a + 1, b, st, Seq::empty(), start, truth);
    let (w1, ends) = walk(t, terminals, a + 1, b, st, Seq::empty(), start)->Ok_0;
    assert(w == walk_finished(w1, ends));
    let ran = run(t, terminals, a + 1, b, st, truth);
    let last = ends.map_values(|s: StateView| (s, "(fall-through)"@));
    assert(w.paths =~= w1.paths + last);
    assert forall|i: int| 0 <= i < w.paths.len() implies #[trigger] w.paths[i] == if i < w1.paths.len() {
        w1.paths[i]
    } else {
        (ends[i - w1.paths.len()], "(fall-through)"@)
    } by {}
    assert forall|i: int| 0 <= i < w.paths.len() implies valid((#[trigger] w.paths[i]).0.conds, w.atoms.len()) by {
        if i < w1.paths.len() {
            assert(valid(w1.paths[i].0.conds, w1.atoms.len()));
        } else {
            assert(valid(ends[i - w1.paths.len()].conds, w1.atoms.len()));
        }
    }
    assert(holds_for(st.conds, start.atoms, truth));
    if some_path(w1, 0, truth) {
        let i = choose|i: int| 0 <= i < w1.paths.len() && holds_for((#[trigger] w1.paths[i]).0.conds, w1.atoms, truth);
        assert(holds_for(w.paths[i].0.conds, w.atoms, truth));
    } else {
        let i = choose|i: int| 0 <= i < ends.len() && holds_for((#[trigger] ends[i]).conds, w1.atoms, truth);
        assert(holds_for(w.paths[w1.paths.len() + i].0.conds, w.atoms, truth));
    }
    assert forall|i: int|
        0 <= i < w.paths.len() && holds_for((#[trigger] w.paths[i]).0.conds, w.atoms, truth) implies method_run(
        t,
        terminals,
        lo,
        hi,
        truth,
    ) == (bare(w.paths[i].0), w.paths[i].1) by {
        if i < w1.paths.len() {
            assert(holds_for(w1.paths[i].0.conds, w1.atoms, truth));
        } else {
            assert(holds_for(ends[i - w1.paths.len()].conds, w1.atoms, truth));
        }
    }
}

/// The table of a method is faithful: whatever truth the conditions have, a
/// row applies, and every row that applies gives the outcome of running the
/// method with these conditions. So no case is missing, and no two rows
/// contradict each other.
pub proof fn law_table_faithful(
    t: Seq<NodeView>,
    terminals: Seq<Seq<char>>,
    lo: int,
    hi: int,
    w: WalkView,
    truth: spec_fn(Seq<char>) -> bool,
)
    requires
        method_walk(t, terminals, lo, hi) == Ok::<Option<WalkView>, Seq<char>>(Some(w)),
    ensures
        exists|i: int|
            0 <= i < walk_table(w).rows.len() && row_applies(
                (#[trigger] walk_table(w).rows[i]).when,
                walk_table(w).variables,
                truth,
            ),
        forall|i: int|
            0 <= i < walk_table(w).rows.len() && row_applies(
                (#[trigger] walk_table(w).rows[i]).when,
                walk_table(w).variables,
                truth,
            ) ==> walk_table(w).rows[i].outcome == path_outcome(w, method_run(t, terminals, lo, hi, truth)),
{
    lemma_method(t, terminals, lo, hi, w, truth);
    let rows = walk_table(w).rows;
    assert forall|i: int| 0 <= i < rows.len() implies row_applies((#[trigger] rows[i]).when, w.atoms, truth)
        == holds_for(w.paths[i].0.conds, w.atoms, truth) by {
        assert(valid(w.paths[i].0.conds, w.atoms.len()));
        lemma_row_applies(MAX_ATOMS, w.paths[i].0.conds, w.atoms, truth);
    }
    let k = choose|k: int| 0 <= k < w.paths.len() && holds_for((#[trigger] w.paths[k]).0.conds, w.atoms, truth);
    assert(row_applies(rows[k].when, walk_table(w).variables, truth));
    assert forall|i: int|
        0 <= i < rows.len() && row_applies((#[trigger] rows[i]).when, walk_table(w).variables, truth) implies rows[i].outcome
        == path_outcome(w, method_run(t, terminals, lo, hi, truth)) by {
        assert(holds_for(w.paths[i].0.conds, w.atoms, truth));
        let ran = method_run(t, terminals, lo, hi, truth);
        assert(ran == (bare(w.paths[i].0), w.paths[i].1));
        assert(visible_effects(w.paths[i].0, w.locals) == visible_effects(ran.0, w.locals));
    }
}

/// The truth that a minterm gives the conditions.
pub open spec fn minterm_truth(atoms: Seq<Seq<char>>, m: u32) -> spec_fn(Seq<char>) -> bool {
    |label: Seq<char>|
        match first_index(atoms, label) {
            Some(i) => bit_at(m, i as u32),
            None => false,
        }
}

/// The table of a method never contradicts itself, so it can be compressed
/// unless it has too many conditions.
pub proof fn law_table_compresses(t: Seq<NodeView>, terminals: Seq<Seq<char>>, lo: int, hi: int, w: WalkView)
    requires
        method_walk(t, terminals, lo, hi) == Ok::<Option<WalkView>, Seq<char>>(Some(w)),
    ensures
        walk_table(w).rows.len() > 0,
        walk_table(w).variables.len() <= MAX_ATOMS,
        walk_table(w).variables.len() <= MAX_VARIABLES ==> consistent(walk_table(w)),
{
    reveal(are_atoms);
    let table = walk_table(w);
    lemma_method(t, terminals, lo, hi, w, minterm_truth(w.atoms, 0));
    law_table_faithful(t, terminals, lo, hi, w, minterm_truth(w.atoms, 0));
    assert forall|q: int, r: int, m: u32| w.atoms.len() <= MAX_VARIABLES implies !#[trigger] clash(table, q, r, m) by {
        if clash(table, q, r, m) && w.atoms.len() <= MAX_VARIABLES {
            let truth = minterm_truth(w.atoms, m);
            assert forall|i: int| 0 <= i < w.atoms.len() implies #[trigger] truth(w.atoms[i]) == bit_at(m, i as u32) by {
                lemma_first_index(w.atoms, w.atoms[i]);
            }
            lemma_row_inputs(w.paths[q].0.conds, w.atoms.len());
            lemma_row_inputs(w.paths[r].0.conds, w.atoms.len());
            assert forall|k: int, i: int|
                0 <= k < table.rows.len() && applies(table.rows[k].when, m) && 0 <= i < table.rows[k].when.len()
                    && table.rows[k].when.len() == w.atoms.len() implies #[trigger] tri_applies(
                table.rows[k].when[i],
                truth(w.atoms[i]),
            ) by {
                assert(admits(table.rows[k].when[(i as u32) as int], bit_at(m, i as u32)));
            }
            assert(row_applies(table.rows[q].when, table.variables, truth));
            assert(row_applies(table.rows[r].when, table.variables, truth));
            law_table_faithful(t, terminals, lo, hi, w, truth);
        }
    }
}

} // verus!
