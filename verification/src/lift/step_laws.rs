//! What single statements do to the state of a path.

use vstd::prelude::*;

use crate::lift::decision_extractor::{names_in, parameter_names};
use crate::lift::decision_walk::{declared, return_text, throw_text, WalkView};
use crate::lift::relation_laws::stands_among;
use crate::lift::switch_model::{
    arms_of, closed_group, closed_groups, default_of, group_arms, groups_in, is_group, stacked, switch_model, GroupView,
};
use crate::lift::switches::{breaks_in, has_default, has_exit, label_values, last_stmt, named_texts, subject_of};
use crate::lift::symbolic::{
    call_slot, effect, is_logger, is_terminal, last_segment, with_call, with_write, write_slot, written, StateView,
};
use crate::lift::syntax::{child_in_role, first_named, node_end, text_in_role, NodeView};
use crate::seqs::{lemma_plus_contains, lemma_push_contains};
use crate::text::{lemma_lex_total, lemma_lex_transitive, lex_le, lowercase, normalized};
use crate::text_set::including;

verus! {

/// The targets stand in order, each once.
pub open spec fn in_order(writes: Seq<(Seq<char>, Seq<char>)>) -> bool {
    forall|i: int, j: int|
        0 <= i < j < writes.len() ==> lex_le((#[trigger] writes[i]).0, (#[trigger] writes[j]).0) && writes[i].0
            != writes[j].0
}

proof fn lemma_slot(writes: Seq<(Seq<char>, Seq<char>)>, key: Seq<char>, i: int)
    requires
        0 <= i <= writes.len(),
    ensures
        i <= write_slot(writes, key, i) <= writes.len(),
        forall|j: int| i <= j < write_slot(writes, key, i) ==> !lex_le(key, (#[trigger] writes[j]).0),
        write_slot(writes, key, i) < writes.len() ==> lex_le(key, writes[write_slot(writes, key, i)].0),
    decreases writes.len() - i,
{
    if i < writes.len() && !lex_le(key, writes[i].0) {
        lemma_slot(writes, key, i + 1);
    }
}

/// Where a target stands among writes in order.
proof fn lemma_slot_found(writes: Seq<(Seq<char>, Seq<char>)>, key: Seq<char>)
    requires
        in_order(writes),
    ensures
        ({
            let i = write_slot(writes, key, 0);
            &&& 0 <= i <= writes.len()
            &&& forall|j: int| 0 <= j < i ==> lex_le((#[trigger] writes[j]).0, key) && writes[j].0 != key
            &&& forall|j: int| i < j < writes.len() ==> lex_le(key, (#[trigger] writes[j]).0) && writes[j].0 != key
            &&& i < writes.len() ==> lex_le(key, writes[i].0)
        }),
{
    lemma_slot(writes, key, 0);
    let i = write_slot(writes, key, 0);
    assert forall|j: int| 0 <= j < i implies lex_le((#[trigger] writes[j]).0, key) && writes[j].0 != key by {
        lemma_lex_total(key, writes[j].0);
        crate::text::lemma_lex_total(key, key);
    }
    assert forall|j: int| i < j < writes.len() implies lex_le(key, (#[trigger] writes[j]).0) && writes[j].0 != key by {
        lemma_lex_transitive(key, writes[i].0, writes[j].0);
        if writes[j].0 == key {
            lemma_lex_antisymmetric(key, writes[i].0);
        }
    }
}

proof fn lemma_lex_antisymmetric(a: Seq<char>, b: Seq<char>)
    requires
        lex_le(a, b),
        lex_le(b, a),
    ensures
        a == b,
    decreases a.len(),
{
    if a.len() > 0 && b.len() > 0 {
        lemma_lex_antisymmetric(a.skip(1), b.skip(1));
        assert(a =~= seq![a[0]] + a.skip(1));
        assert(b =~= seq![b[0]] + b.skip(1));
    } else {
        assert(a =~= b);
    }
}

/// A write sets its target and nothing else.
pub proof fn law_write(
    writes: Seq<(Seq<char>, Seq<char>)>,
    target: Seq<char>,
    value: Seq<char>,
    other: Seq<char>,
    x: Seq<char>,
)
    requires
        in_order(writes),
    ensures
        in_order(with_write(writes, target, value)),
        with_write(writes, target, value).contains((other, x)) <==> if other == target {
            x == value
        } else {
            writes.contains((other, x))
        },
        written(writes, other) == Some(x) <==> writes.contains((other, x)),
{
    let after = with_write(writes, target, value);
    let i = write_slot(writes, target, 0);
    lemma_slot_found(writes, target);
    let replaced = i < writes.len() && writes[i].0 == target;
    assert forall|j: int, k: int| 0 <= j < k < after.len() implies lex_le(
        (#[trigger] after[j]).0,
        (#[trigger] after[k]).0,
    ) && after[j].0 != after[k].0 by {
        if replaced {
            assert(after[j].0 == writes[j].0 && after[k].0 == writes[k].0);
        } else {
            if j != i && k != i {
                let a = if j < i {
                    j
                } else {
                    j - 1
                };
                let b = if k < i {
                    k
                } else {
                    k - 1
                };
                assert(after[j] == writes[a] && after[k] == writes[b]);
            } else if j == i {
                assert(after[k] == writes[k - 1]);
                if k - 1 == i {
                    assert(writes[i].0 != target);
                }
            } else {
                assert(after[j] == writes[j]);
            }
        }
    }
    if replaced {
        assert(after[i] == (target, value));
        if after.contains((other, x)) {
            let j = choose|j: int| 0 <= j < after.len() && after[j] == (other, x);
            if j != i {
                assert(writes[j] == (other, x));
                assert(writes[j].0 != target);
            }
        }
        if writes.contains((other, x)) && other != target {
            let j = choose|j: int| 0 <= j < writes.len() && writes[j] == (other, x);
            assert(after[j] == (other, x));
        }
    } else {
        assert(after[i] == (target, value));
        if after.contains((other, x)) {
            let j = choose|j: int| 0 <= j < after.len() && after[j] == (other, x);
            if j < i {
                assert(writes[j] == (other, x));
            } else if j > i {
                assert(writes[j - 1] == (other, x));
                assert(writes[j - 1].0 != target);
            }
        }
        if writes.contains((other, x)) {
            let j = choose|j: int| 0 <= j < writes.len() && writes[j] == (other, x);
            if j < i {
                assert(after[j] == (other, x));
            } else {
                assert(after[j + 1] == (other, x));
            }
        }
    }
    lemma_slot_found(writes, other);
    let k = write_slot(writes, other, 0);
    if writes.contains((other, x)) {
        let j = choose|j: int| 0 <= j < writes.len() && writes[j] == (other, x);
        assert(j == k);
    }
    if written(writes, other) == Some(x) {
        assert(writes[k] == (other, x));
    }
}

proof fn lemma_call_slot(calls: Seq<Seq<char>>, call: Seq<char>, i: int)
    requires
        0 <= i <= calls.len(),
    ensures
        i <= call_slot(calls, call, i) <= calls.len(),
    decreases calls.len() - i,
{
    if i < calls.len() && !lex_le(call, calls[i]) {
        lemma_call_slot(calls, call, i + 1);
    }
}

/// A call is noted, and what was noted before stays.
pub proof fn law_call(calls: Seq<Seq<char>>, call: Seq<char>, x: Seq<char>)
    ensures
        with_call(calls, call).contains(x) <==> calls.contains(x) || x == call,
{
    lemma_call_slot(calls, call, 0);
    let i = call_slot(calls, call, 0);
    let after = with_call(calls, call);
    if !(i < calls.len() && calls[i] == call) {
        assert(after[i] == call);
        if calls.contains(x) {
            let j = choose|j: int| 0 <= j < calls.len() && calls[j] == x;
            if j < i {
                assert(after[j] == x);
            } else {
                assert(after[j + 1] == x);
            }
        }
        if after.contains(x) {
            let j = choose|j: int| 0 <= j < after.len() && after[j] == x;
            if j < i {
                assert(calls[j] == x);
            } else if j > i {
                assert(calls[j - 1] == x);
            }
        }
    } else {
        assert(calls.contains(call));
    }
}

proof fn lemma_expression_kinds()
    ensures
        "assignment_expression"@ != "update_expression"@,
        "assignment_expression"@ != "method_invocation"@,
        "update_expression"@ != "method_invocation"@,
{
    reveal_strlit("assignment_expression");
    reveal_strlit("update_expression");
    reveal_strlit("method_invocation");
    assert("assignment_expression"@[0] == 'a');
    assert("update_expression"@[0] == 'u');
    assert("method_invocation"@[0] == 'm');
}

/// An assignment writes its right side to its left side; one with an operator
/// writes what the operator makes of both.
pub proof fn law_assignment(
    t: Seq<NodeView>,
    lo: int,
    hi: int,
    st: StateView,
    left: (int, int),
    right: (int, int),
    other: Seq<char>,
    x: Seq<char>,
)
    requires
        in_order(st.writes),
        t[lo].kind == "assignment_expression"@,
        child_in_role(t, lo, hi, "left"@) == Some(left),
        child_in_role(t, lo, hi, "right"@) == Some(right),
    ensures
        ({
            let after = effect(t, lo, hi, st);
            let target = normalized(t[left.0].text);
            let value = normalized(t[right.0].text);
            let operator = text_in_role(t, lo, hi, "operator"@);
            &&& in_order(after.writes)
            &&& after.calls == st.calls
            &&& after.conds == st.conds
            &&& other != target ==> (after.writes.contains((other, x)) <==> st.writes.contains((other, x)))
            &&& operator == "="@ ==> (after.writes.contains((target, x)) <==> x == value)
            &&& forall|sign: Seq<char>|
                sign.len() > 0 && operator == #[trigger] (sign + "="@) ==> (after.writes.contains((target, x)) <==> x
                    == target + " "@ + sign + " "@ + value)
        }),
{
    let target = normalized(t[left.0].text);
    let operator = text_in_role(t, lo, hi, "operator"@);
    let value = crate::lift::symbolic::assigned_value(target, operator, normalized(t[right.0].text));
    law_write(st.writes, target, value, other, x);
    law_write(st.writes, target, value, target, x);
    reveal_strlit("=");
    assert forall|sign: Seq<char>| sign.len() > 0 && operator == #[trigger] (sign + "="@) implies value == target
        + " "@ + sign + " "@ + normalized(t[right.0].text) by {
        assert(operator.drop_last() =~= sign);
        assert(operator.len() > 1);
    }
}

/// `x++` and the like write the expression to what it is applied to.
pub proof fn law_update(
    t: Seq<NodeView>,
    lo: int,
    hi: int,
    st: StateView,
    operand: (int, int),
    other: Seq<char>,
    x: Seq<char>,
)
    requires
        in_order(st.writes),
        t[lo].kind == "update_expression"@,
        first_named(t, lo, hi) == Some(operand),
    ensures
        ({
            let after = effect(t, lo, hi, st);
            &&& in_order(after.writes)
            &&& after.calls == st.calls
            &&& after.conds == st.conds
            &&& after.writes.contains((other, x)) <==> if other == normalized(t[operand.0].text) {
                x == normalized(t[lo].text)
            } else {
                st.writes.contains((other, x))
            }
        }),
{
    lemma_expression_kinds();
    law_write(st.writes, normalized(t[operand.0].text), normalized(t[lo].text), other, x);
}

/// What only writes a log: the standard streams, and objects whose last name is
/// that of a log or a logger.
pub open spec fn logs(object: Seq<char>) -> bool {
    ||| object == "System.out"@
    ||| object == "System.err"@
    ||| exists|outer: Seq<char>, name: Seq<char>|
        !name.contains('.') && (object == name || object == outer + "."@ + name) && #[trigger] is_log(outer, name)
}

pub open spec fn is_log(outer: Seq<char>, name: Seq<char>) -> bool {
    lowercase(name) == "log"@ || lowercase(name) == "logger"@
}

proof fn lemma_segment(s: Seq<char>) -> (outer: Seq<char>)
    ensures
        !last_segment(s).contains('.'),
        s == last_segment(s) || s == outer + "."@ + last_segment(s),
    decreases s.len(),
{
    reveal_strlit(".");
    let last = last_segment(s);
    if s.len() == 0 {
        assert(s =~= last);
        Seq::empty()
    } else if s.last() == '.' {
        assert(s =~= s.drop_last() + "."@ + last);
        s.drop_last()
    } else {
        let front = s.drop_last();
        let outer = lemma_segment(front);
        let before = last_segment(front);
        assert(last == before.push(s.last()));
        if last.contains('.') {
            let i = choose|i: int| 0 <= i < last.len() && last[i] == '.';
            if i < before.len() {
                assert(before[i] == '.');
            }
        }
        assert(s =~= front.push(s.last()));
        if front == before {
            assert(s =~= last);
        } else {
            assert(s =~= outer + "."@ + last);
        }
        outer
    }
}

proof fn lemma_segment_unique(outer: Seq<char>, name: Seq<char>)
    requires
        !name.contains('.'),
    ensures
        last_segment(name) == name,
        last_segment(outer + "."@ + name) == name,
    decreases name.len(),
{
    reveal_strlit(".");
    let s = outer + "."@ + name;
    if name.len() == 0 {
        assert(s.last() == '.');
        assert(last_segment(s) =~= name);
        assert(last_segment(name) =~= name);
    } else {
        let cut = name.drop_last();
        assert(!cut.contains('.')) by {
            if cut.contains('.') {
                let i = choose|i: int| 0 <= i < cut.len() && cut[i] == '.';
                assert(name[i] == '.');
            }
        }
        lemma_segment_unique(outer, cut);
        assert(name[name.len() - 1] != '.');
        assert(s.last() == name.last());
        assert(s.drop_last() =~= outer + "."@ + cut);
        assert(cut.push(name.last()) =~= name);
    }
}

proof fn lemma_logs(object: Seq<char>)
    ensures
        is_logger(object) == logs(object),
{
    let outer = lemma_segment(object);
    let last = last_segment(object);
    if lowercase(last) == "log"@ || lowercase(last) == "logger"@ {
        assert(is_log(outer, last));
    }
    if logs(object) && object != "System.out"@ && object != "System.err"@ {
        let (outer, name) = choose|outer: Seq<char>, name: Seq<char>|
            !name.contains('.') && (object == name || object == outer + "."@ + name) && #[trigger] is_log(outer, name);
        lemma_segment_unique(outer, name);
    }
}

/// A call is an effect unless it only writes a log; it changes no write.
pub proof fn law_call_effect(t: Seq<NodeView>, lo: int, hi: int, st: StateView, x: Seq<char>)
    requires
        t[lo].kind == "method_invocation"@,
    ensures
        ({
            let after = effect(t, lo, hi, st);
            &&& after.writes == st.writes
            &&& after.conds == st.conds
            &&& after.calls.contains(x) <==> st.calls.contains(x) || x == normalized(t[lo].text) && !logs(
                text_in_role(t, lo, hi, "object"@),
            )
        }),
{
    lemma_expression_kinds();
    lemma_logs(text_in_role(t, lo, hi, "object"@));
    law_call(st.calls, normalized(t[lo].text), x);
}

/// Other expressions do nothing that can be seen.
pub proof fn law_other_effect(t: Seq<NodeView>, lo: int, hi: int, st: StateView)
    requires
        t[lo].kind != "assignment_expression"@,
        t[lo].kind != "update_expression"@,
        t[lo].kind != "method_invocation"@,
    ensures
        effect(t, lo, hi, st) == st,
{
}

/// A call ends a path when its name, or its name behind its object, is that of
/// a call that never returns.
pub proof fn law_terminal(t: Seq<NodeView>, lo: int, hi: int, terminals: Seq<Seq<char>>)
    requires
        t[lo].kind == "method_invocation"@,
    ensures
        terminals.contains(text_in_role(t, lo, hi, "name"@)) ==> is_terminal(t, lo, hi, terminals),
        child_in_role(t, lo, hi, "object"@) matches Some((a, _)) ==> (is_terminal(t, lo, hi, terminals)
            <==> terminals.contains(text_in_role(t, lo, hi, "name"@)) || terminals.contains(
            normalized(t[a].text) + "."@ + text_in_role(t, lo, hi, "name"@),
        )),
        child_in_role(t, lo, hi, "object"@) is None ==> (is_terminal(t, lo, hi, terminals) <==> terminals.contains(
            text_in_role(t, lo, hi, "name"@),
        )),
{
}

/// A variable that is returned is reported by the value that was last written
/// to it, any other expression as it stands.
pub proof fn law_return(t: Seq<NodeView>, lo: int, hi: int, st: StateView, x: Seq<char>)
    requires
        in_order(st.writes),
    ensures
        match first_named(t, lo, hi) {
            Some((a, _)) => {
                let name = normalized(t[a].text);
                &&& t[a].kind == "identifier"@ && st.writes.contains((name, x)) ==> return_text(t, lo, hi, st)
                    == "return "@ + x
                &&& t[a].kind != "identifier"@ ==> return_text(t, lo, hi, st) == "return "@ + name
                &&& (forall|v: Seq<char>| !#[trigger] st.writes.contains((name, v))) ==> return_text(t, lo, hi, st)
                    == "return "@ + name
            },
            None => return_text(t, lo, hi, st) == "return"@,
        },
        match first_named(t, lo, hi) {
            Some((a, _)) => throw_text(t, lo, hi) == "throw "@ + normalized(t[a].text),
            None => throw_text(t, lo, hi) == "throw "@,
        },
{
    if let Some((a, _)) = first_named(t, lo, hi) {
        let name = normalized(t[a].text);
        law_write(st.writes, name, x, name, x);
        if let Some(v) = written(st.writes, name) {
            law_write(st.writes, name, v, name, v);
        }
    }
}

/// A declarator: it has a name, and it may have a value.
pub open spec fn declares_variable(t: Seq<NodeView>, q: int, hi: int) -> Option<(int, int)> {
    if t[q].named && t[q].kind == "variable_declarator"@ {
        child_in_role(t, q, node_end(t, q, hi), "name"@)
    } else {
        None
    }
}

/// Declared variables are local, and their first values are written to them.
pub proof fn law_declared(
    t: Seq<NodeView>,
    lo: int,
    hi: int,
    locals: Seq<Seq<char>>,
    st: StateView,
    x: Seq<char>,
)
    requires
        in_order(st.writes),
    ensures
        ({
            let r = declared(t, lo, hi, locals, st);
            &&& in_order(r.1.writes)
            &&& r.1.calls == st.calls
            &&& r.1.conds == st.conds
            &&& r.0.contains(x) <==> locals.contains(x) || exists|q: int| #[trigger]
                stands_among(t, lo, hi, q) && (declares_variable(t, q, hi) matches Some((a, _)) && normalized(t[a].text)
                    == x)
            &&& forall|v: Seq<char>|
                (forall|q: int| #[trigger]
                    stands_among(t, lo, hi, q) ==> (declares_variable(t, q, hi) matches Some((a, _)) ==> normalized(
                        t[a].text,
                    ) != x)) ==> (#[trigger] r.1.writes.contains((x, v)) <==> st.writes.contains((x, v)))
        }),
    decreases hi - lo,
{
    if lo < hi {
        let end = node_end(t, lo, hi);
        let r = declared(t, lo, hi, locals, st);
        let next = match declares_variable(t, lo, hi) {
            Some((a, _)) => {
                let name = normalized(t[a].text);
                let after = match child_in_role(t, lo, end, "value"@) {
                    Some((b, _)) => {
                        law_write(st.writes, name, normalized(t[b].text), x, x);
                        StateView { writes: with_write(st.writes, name, normalized(t[b].text)), ..st }
                    },
                    None => st,
                };
                (including(locals, name), after)
            },
            None => (locals, st),
        };
        law_declared(t, end, hi, next.0, next.1, x);
        assert(r == declared(t, end, hi, next.0, next.1));
        if let Some((a, _)) = declares_variable(t, lo, hi) {
            lemma_push_contains(locals, normalized(t[a].text));
        }
        assert(stands_among(t, lo, hi, lo));
        assert forall|q: int| #[trigger] stands_among(t, end, hi, q) implies stands_among(t, lo, hi, q) by {}
        if exists|q: int| #[trigger]
            stands_among(t, lo, hi, q) && (declares_variable(t, q, hi) matches Some((a, _)) && normalized(t[a].text)
                == x) {
            let q = choose|q: int| #[trigger]
                stands_among(t, lo, hi, q) && (declares_variable(t, q, hi) matches Some((a, _)) && normalized(
                    t[a].text,
                ) == x);
            if q != lo {
                assert(stands_among(t, end, hi, q));
            }
        }
        assert forall|v: Seq<char>|
            (forall|q: int| #[trigger]
                stands_among(t, lo, hi, q) ==> (declares_variable(t, q, hi) matches Some((a, _)) ==> normalized(
                    t[a].text,
                ) != x)) implies (#[trigger] r.1.writes.contains((x, v)) <==> st.writes.contains((x, v))) by {
            assert(next.1.writes.contains((x, v)) <==> st.writes.contains((x, v))) by {
                if let Some((a, _)) = declares_variable(t, lo, hi) {
                    if let Some((b, _)) = child_in_role(t, lo, end, "value"@) {
                        law_write(st.writes, normalized(t[a].text), normalized(t[b].text), x, v);
                    }
                }
            }
        }
    }
}

/// The value of a declaration that stands alone is written to its variable.
pub proof fn law_declared_value(
    t: Seq<NodeView>,
    lo: int,
    hi: int,
    locals: Seq<Seq<char>>,
    st: StateView,
    name: (int, int),
    value: (int, int),
)
    requires
        in_order(st.writes),
        lo < hi,
        node_end(t, lo, hi) == hi,
        declares_variable(t, lo, hi) == Some(name),
        child_in_role(t, lo, hi, "value"@) == Some(value),
    ensures
        declared(t, lo, hi, locals, st).1.writes.contains((normalized(t[name.0].text), normalized(t[value.0].text))),
{
    let key = normalized(t[name.0].text);
    let text = normalized(t[value.0].text);
    law_write(st.writes, key, text, key, text);
    reveal_with_fuel(declared, 2);
}

proof fn lemma_names_in(t: Seq<NodeView>, lo: int, hi: int, names: Seq<Seq<char>>, x: Seq<char>)
    ensures
        names_in(t, lo, hi, names).contains(x) <==> names.contains(x) || exists|q: int| #[trigger]
            stands_among(t, lo, hi, q) && t[q].named && (child_in_role(t, q, node_end(t, q, hi), "name"@) matches Some(
                (a, _),
            ) && t[a].text == x),
    decreases hi - lo,
{
    if lo < hi {
        let end = node_end(t, lo, hi);
        let next = match child_in_role(t, lo, end, "name"@) {
            Some((a, _)) => if t[lo].named {
                including(names, t[a].text)
            } else {
                names
            },
            None => names,
        };
        lemma_names_in(t, end, hi, next, x);
        if let Some((a, _)) = child_in_role(t, lo, end, "name"@) {
            lemma_push_contains(names, t[a].text);
        }
        assert(stands_among(t, lo, hi, lo));
        assert forall|q: int| #[trigger] stands_among(t, end, hi, q) implies stands_among(t, lo, hi, q) by {}
        if exists|q: int| #[trigger]
            stands_among(t, lo, hi, q) && t[q].named && (child_in_role(t, q, node_end(t, q, hi), "name"@) matches Some(
                (a, _),
            ) && t[a].text == x) {
            let q = choose|q: int| #[trigger]
                stands_among(t, lo, hi, q) && t[q].named && (child_in_role(t, q, node_end(t, q, hi), "name"@) matches Some(
                    (a, _),
                ) && t[a].text == x);
            if q != lo {
                assert(stands_among(t, end, hi, q));
            }
        }
    }
}

/// The parameters of a method are local from the start.
pub proof fn law_parameters(t: Seq<NodeView>, lo: int, hi: int, list: (int, int), x: Seq<char>)
    requires
        child_in_role(t, lo, hi, "parameters"@) == Some(list),
    ensures
        parameter_names(t, lo, hi).contains(x) <==> exists|q: int| #[trigger]
            stands_among(t, list.0 + 1, list.1, q) && t[q].named && (child_in_role(
                t,
                q,
                node_end(t, q, list.1),
                "name"@,
            ) matches Some((a, _)) && t[a].text == x),
{
    lemma_names_in(t, list.0 + 1, list.1, Seq::empty(), x);
}

/// Passing a construct that is not modelled makes a table incomplete exactly
/// when a return or a throw stands in it.
pub proof fn law_passing(w: WalkView, lo: int, hi: int, t: Seq<NodeView>)
    ensures
        w.passing(lo, hi, t).incomplete <==> w.incomplete || exists|i: int|
            lo <= i < hi && ((#[trigger] t[i]).kind == "return_statement"@ || t[i].kind == "throw_statement"@),
        w.passing(lo, hi, t).paths == w.paths,
        w.passing(lo, hi, t).atoms == w.atoms,
        w.passing(lo, hi, t).locals == w.locals,
{
    if has_exit(t, lo, hi) {
        let i = choose|i: int| lo <= i < hi && #[trigger] crate::lift::switches::is_exit(t[i]);
        assert(t[i].kind == "return_statement"@ || t[i].kind == "throw_statement"@);
    }
    if exists|i: int| lo <= i < hi && ((#[trigger] t[i]).kind == "return_statement"@ || t[i].kind == "throw_statement"@) {
        let i = choose|i: int|
            lo <= i < hi && ((#[trigger] t[i]).kind == "return_statement"@ || t[i].kind == "throw_statement"@);
        assert(crate::lift::switches::is_exit(t[i]));
    }
}

/// The value `v` of a label `r` in the group at `q`.
pub open spec fn is_case(t: Seq<NodeView>, body: (int, int), q: int, r: int, v: int) -> bool {
    &&& stands_among(t, body.0 + 1, body.1, q)
    &&& t[q].named
    &&& t[q].kind == "switch_block_statement_group"@ || t[q].kind == "switch_rule"@
    &&& stands_among(t, q + 1, node_end(t, q, body.1), r)
    &&& t[r].named
    &&& t[r].kind == "switch_label"@
    &&& stands_among(t, r + 1, node_end(t, r, node_end(t, q, body.1)), v)
    &&& t[v].named
}

proof fn lemma_named_texts(t: Seq<NodeView>, lo: int, hi: int, v: int)
    requires
        stands_among(t, lo, hi, v),
        t[v].named,
    ensures
        named_texts(t, lo, hi).contains(normalized(t[v].text)),
    decreases hi - lo,
{
    let end = node_end(t, lo, hi);
    let rest = named_texts(t, end, hi);
    let one = seq![normalized(t[lo].text)];
    lemma_plus_contains(one, rest);
    if v == lo {
        assert(one[0] == normalized(t[v].text));
        assert(one.contains(normalized(t[v].text)));
    } else {
        lemma_named_texts(t, end, hi, v);
    }
}

proof fn lemma_label_values(t: Seq<NodeView>, lo: int, hi: int, r: int, x: Seq<char>)
    requires
        stands_among(t, lo, hi, r),
        t[r].named,
        t[r].kind == "switch_label"@,
        named_texts(t, r + 1, node_end(t, r, hi)).contains(x),
    ensures
        label_values(t, lo, hi).contains(x),
    decreases hi - lo,
{
    let end = node_end(t, lo, hi);
    lemma_plus_contains(named_texts(t, lo + 1, end), label_values(t, end, hi));
    if r != lo {
        lemma_label_values(t, end, hi, r, x);
    }
}

/// A group holds the value.
spec fn some_group(groups: Seq<GroupView>, x: Seq<char>) -> bool {
    exists|i: int| 0 <= i < groups.len() && (#[trigger] groups[i]).values.contains(x)
}

proof fn lemma_groups_in(t: Seq<NodeView>, lo: int, hi: int, q: int, x: Seq<char>)
    requires
        stands_among(t, lo, hi, q),
        is_group(t[q]),
        label_values(t, q + 1, node_end(t, q, hi)).contains(x),
        groups_in(t, lo, hi) is Some,
    ensures
        some_group(groups_in(t, lo, hi)->Some_0, x),
    decreases hi - lo,
{
    let end = node_end(t, lo, hi);
    let all = groups_in(t, lo, hi)->Some_0;
    let rest = groups_in(t, end, hi)->Some_0;
    if q == lo {
        assert(all[0].values.contains(x));
    } else {
        lemma_groups_in(t, end, hi, q, x);
        let i = choose|i: int| 0 <= i < rest.len() && (#[trigger] rest[i]).values.contains(x);
        if is_group(t[lo]) {
            assert(all[i + 1] == rest[i]);
            assert(all[i + 1].values.contains(x));
        } else {
            assert(all[i].values.contains(x));
        }
    }
}

proof fn lemma_stacked(
    t: Seq<NodeView>,
    groups: Seq<GroupView>,
    i: int,
    values: Seq<Seq<char>>,
    is_default: bool,
    x: Seq<char>,
)
    requires
        0 <= i < groups.len(),
        values.contains(x) || exists|k: int| i <= k < groups.len() && (#[trigger] groups[k]).values.contains(x),
    ensures
        some_group(stacked(t, groups, i, values, is_default), x),
    decreases groups.len() - i,
{
    let g = groups[i];
    let all = stacked(t, groups, i, values, is_default);
    lemma_plus_contains(values, g.values);
    let here = values.contains(x) || g.values.contains(x);
    if !g.is_rule && crate::lift::switches::stmt_at(t, g.lo, g.hi) >= g.hi && i != groups.len() - 1 {
        lemma_stacked(t, groups, i + 1, values + g.values, is_default || g.is_default, x);
    } else {
        let rest = stacked(t, groups, i + 1, Seq::empty(), false);
        if here {
            assert(all[0].values.contains(x));
        } else {
            lemma_stacked(t, groups, i + 1, Seq::empty(), false, x);
            let k = choose|k: int| 0 <= k < rest.len() && (#[trigger] rest[k]).values.contains(x);
            assert(all[k + 1] == rest[k]);
            assert(all[k + 1].values.contains(x));
        }
    }
}

proof fn lemma_closed(t: Seq<NodeView>, groups: Seq<GroupView>, n: int, k: int)
    requires
        0 <= k < n <= groups.len(),
        closed_groups(t, groups, n) is Some,
    ensures
        closed_groups(t, groups, n)->Some_0.len() == n,
        closed_groups(t, groups, n)->Some_0[k].values == groups[k].values,
    decreases n,
{
    lemma_closed_length(t, groups, n);
    lemma_closed_length(t, groups, n - 1);
    if k < n - 1 {
        lemma_closed(t, groups, n - 1, k);
    }
}

proof fn lemma_closed_length(t: Seq<NodeView>, groups: Seq<GroupView>, n: int)
    requires
        0 <= n <= groups.len(),
        closed_groups(t, groups, n) is Some,
    ensures
        closed_groups(t, groups, n)->Some_0.len() == n,
    decreases n,
{
    if n > 0 {
        lemma_closed_length(t, groups, n - 1);
    }
}

proof fn lemma_arms(subject: Seq<char>, groups: Seq<GroupView>, n: int, k: int, x: Seq<char>)
    requires
        0 <= k < n <= groups.len(),
        groups[k].values.contains(x),
    ensures
        exists|i: int|
            0 <= i < arms_of(subject, groups, n).len() && (#[trigger] arms_of(subject, groups, n)[i]).label == subject
                + " == "@ + x,
    decreases n,
{
    let before = arms_of(subject, groups, n - 1);
    let own = group_arms(subject, groups[n - 1]);
    let all = arms_of(subject, groups, n);
    if k == n - 1 {
        let v = groups[k].values;
        let j = choose|j: int| 0 <= j < v.len() && v[j] == x;
        assert(all[before.len() + j] == own[j]);
        assert(own[j].label == subject + " == "@ + x);
        assert(all[before.len() + j].label == subject + " == "@ + x);
    } else {
        lemma_arms(subject, groups, n - 1, k, x);
        let i = choose|i: int| 0 <= i < before.len() && (#[trigger] before[i]).label == subject + " == "@ + x;
        assert(all[i] == before[i]);
    }
}

/// Every value of every label of a modelled switch has a case: the condition
/// that the subject equals the value.
pub proof fn law_switch_cases(
    t: Seq<NodeView>,
    lo: int,
    hi: int,
    condition: (int, int),
    body: (int, int),
    q: int,
    r: int,
    v: int,
)
    requires
        child_in_role(t, lo, hi, "condition"@) == Some(condition),
        child_in_role(t, lo, hi, "body"@) == Some(body),
        is_case(t, body, q, r, v),
    ensures
        switch_model(t, lo, hi) matches Some(model) ==> exists|i: int|
            0 <= i < model.arms.len() && (#[trigger] model.arms[i]).label == subject_of(t[condition.0].text)
                + " == "@ + normalized(t[v].text),
{
    let x = normalized(t[v].text);
    if let Some(model) = switch_model(t, lo, hi) {
        let end = node_end(t, q, body.1);
        lemma_named_texts(t, r + 1, node_end(t, r, end), v);
        lemma_label_values(t, q + 1, end, r, x);
        let raw = groups_in(t, body.0 + 1, body.1)->Some_0;
        lemma_groups_in(t, body.0 + 1, body.1, q, x);
        let i = choose|i: int| 0 <= i < raw.len() && (#[trigger] raw[i]).values.contains(x);
        lemma_stacked(t, raw, 0, Seq::empty(), false, x);
        let merged = stacked(t, raw, 0, Seq::empty(), false);
        let k = choose|k: int| 0 <= k < merged.len() && (#[trigger] merged[k]).values.contains(x);
        lemma_closed(t, merged, merged.len() as int, k);
        let groups = closed_groups(t, merged, merged.len() as int)->Some_0;
        let subject = subject_of(t[condition.0].text);
        lemma_arms(subject, groups, groups.len() as int, k, x);
        let all = arms_of(subject, groups, groups.len() as int);
        assert(model.arms == all);
        let m = choose|m: int| 0 <= m < all.len() && (#[trigger] all[m]).label == subject + " == "@ + x;
        assert(model.arms[m].label == subject + " == "@ + x);
    }
}

proof fn lemma_has_default(t: Seq<NodeView>, lo: int, hi: int, r: int)
    requires
        stands_among(t, lo, hi, r),
        t[r].named,
        t[r].kind == "switch_label"@,
        forall|v: int| #[trigger] stands_among(t, r + 1, node_end(t, r, hi), v) ==> !t[v].named,
    ensures
        has_default(t, lo, hi),
    decreases hi - lo,
{
    if r == lo {
        lemma_no_named(t, lo + 1, node_end(t, lo, hi));
    } else {
        lemma_has_default(t, node_end(t, lo, hi), hi, r);
    }
}

proof fn lemma_no_named(t: Seq<NodeView>, lo: int, hi: int)
    requires
        forall|v: int| #[trigger] stands_among(t, lo, hi, v) ==> !t[v].named,
    ensures
        named_texts(t, lo, hi).len() == 0,
    decreases hi - lo,
{
    if lo < hi {
        let end = node_end(t, lo, hi);
        assert(stands_among(t, lo, hi, lo));
        assert forall|v: int| #[trigger] stands_among(t, end, hi, v) implies !t[v].named by {
            assert(stands_among(t, lo, hi, v));
        }
        lemma_no_named(t, end, hi);
    }
}

/// A group is the default.
spec fn some_default(groups: Seq<GroupView>) -> bool {
    exists|i: int| 0 <= i < groups.len() && (#[trigger] groups[i]).is_default
}

proof fn lemma_default_in(t: Seq<NodeView>, lo: int, hi: int, q: int)
    requires
        stands_among(t, lo, hi, q),
        is_group(t[q]),
        has_default(t, q + 1, node_end(t, q, hi)),
        groups_in(t, lo, hi) is Some,
    ensures
        some_default(groups_in(t, lo, hi)->Some_0),
    decreases hi - lo,
{
    let end = node_end(t, lo, hi);
    let all = groups_in(t, lo, hi)->Some_0;
    let rest = groups_in(t, end, hi)->Some_0;
    if q == lo {
        assert(all[0].is_default);
    } else {
        lemma_default_in(t, end, hi, q);
        let i = choose|i: int| 0 <= i < rest.len() && (#[trigger] rest[i]).is_default;
        if is_group(t[lo]) {
            assert(all[i + 1].is_default);
        } else {
            assert(all[i].is_default);
        }
    }
}

proof fn lemma_default_stacked(
    t: Seq<NodeView>,
    groups: Seq<GroupView>,
    i: int,
    values: Seq<Seq<char>>,
    is_default: bool,
)
    requires
        0 <= i < groups.len(),
        is_default || exists|k: int| i <= k < groups.len() && (#[trigger] groups[k]).is_default,
    ensures
        some_default(stacked(t, groups, i, values, is_default)),
    decreases groups.len() - i,
{
    let g = groups[i];
    let all = stacked(t, groups, i, values, is_default);
    if !g.is_rule && crate::lift::switches::stmt_at(t, g.lo, g.hi) >= g.hi && i != groups.len() - 1 {
        lemma_default_stacked(t, groups, i + 1, values + g.values, is_default || g.is_default);
    } else {
        let rest = stacked(t, groups, i + 1, Seq::empty(), false);
        if is_default || g.is_default {
            assert(all[0].is_default);
        } else {
            lemma_default_stacked(t, groups, i + 1, Seq::empty(), false);
            let k = choose|k: int| 0 <= k < rest.len() && (#[trigger] rest[k]).is_default;
            assert(all[k + 1].is_default);
        }
    }
}

proof fn lemma_default_closed(t: Seq<NodeView>, groups: Seq<GroupView>, n: int, k: int)
    requires
        0 <= k < n <= groups.len(),
        closed_groups(t, groups, n) is Some,
    ensures
        closed_groups(t, groups, n)->Some_0.len() == n,
        closed_groups(t, groups, n)->Some_0[k].is_default == groups[k].is_default,
    decreases n,
{
    lemma_closed_length(t, groups, n);
    lemma_closed_length(t, groups, n - 1);
    if k < n - 1 {
        lemma_default_closed(t, groups, n - 1, k);
    }
}

proof fn lemma_default_of(groups: Seq<GroupView>, n: int, k: int)
    requires
        0 <= k < n <= groups.len(),
        groups[k].is_default,
    ensures
        default_of(groups, n) is Some,
    decreases n,
{
    if k < n - 1 {
        lemma_default_of(groups, n - 1, k);
    }
}

/// A label without a value makes a default of a modelled switch.
pub proof fn law_switch_default(
    t: Seq<NodeView>,
    lo: int,
    hi: int,
    condition: (int, int),
    body: (int, int),
    q: int,
    r: int,
)
    requires
        child_in_role(t, lo, hi, "condition"@) == Some(condition),
        child_in_role(t, lo, hi, "body"@) == Some(body),
        stands_among(t, body.0 + 1, body.1, q),
        t[q].named,
        t[q].kind == "switch_block_statement_group"@ || t[q].kind == "switch_rule"@,
        stands_among(t, q + 1, node_end(t, q, body.1), r),
        t[r].named,
        t[r].kind == "switch_label"@,
        forall|v: int| #[trigger]
            stands_among(t, r + 1, node_end(t, r, node_end(t, q, body.1)), v) ==> !t[v].named,
    ensures
        switch_model(t, lo, hi) matches Some(model) ==> model.default is Some,
{
    if let Some(model) = switch_model(t, lo, hi) {
        let end = node_end(t, q, body.1);
        lemma_has_default(t, q + 1, end, r);
        let raw = groups_in(t, body.0 + 1, body.1)->Some_0;
        lemma_default_in(t, body.0 + 1, body.1, q);
        lemma_default_stacked(t, raw, 0, Seq::empty(), false);
        let merged = stacked(t, raw, 0, Seq::empty(), false);
        let k = choose|k: int| 0 <= k < merged.len() && (#[trigger] merged[k]).is_default;
        lemma_default_closed(t, merged, merged.len() as int, k);
        let groups = closed_groups(t, merged, merged.len() as int)->Some_0;
        lemma_default_of(groups, groups.len() as int, k);
    }
}

/// A group of statements that runs on into the next one, or that is left by a
/// break in its middle, is not modelled; a break at its end is left out.
pub proof fn law_group_closed(t: Seq<NodeView>, g: GroupView, is_last: bool, p: int)
    requires
        !g.is_rule,
        last_stmt(t, g.lo, g.hi) == Some(p),
    ensures
        ({
            let exits = t[p].kind == "return_statement"@ || t[p].kind == "throw_statement"@;
            let breaks = breaks_in(t, g.lo, g.hi);
            &&& t[p].kind == "break_statement"@ && breaks <= 1 ==> closed_group(t, g, is_last) == Some(
                GroupView { hi: p, ..g },
            )
            &&& t[p].kind == "break_statement"@ && breaks > 1 ==> closed_group(t, g, is_last) is None
            &&& t[p].kind != "break_statement"@ && breaks > 0 ==> closed_group(t, g, is_last) is None
            &&& t[p].kind != "break_statement"@ && !exits && !is_last ==> closed_group(t, g, is_last) is None
            &&& t[p].kind != "break_statement"@ && breaks == 0 && (exits || is_last) ==> closed_group(t, g, is_last)
                == Some(g)
        }),
{
}

/// A break outside of inner loops and switches is counted.
pub proof fn law_breaks(t: Seq<NodeView>, lo: int, hi: int, p: int)
    requires
        stands_among(t, lo, hi, p),
        t[p].kind == "break_statement"@,
    ensures
        breaks_in(t, lo, hi) > 0,
    decreases hi - lo,
{
    if p != lo {
        law_breaks(t, node_end(t, lo, hi), hi, p);
    }
}

} // verus!
