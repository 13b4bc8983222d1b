//! The outcome of a path tells it from the others.

use vstd::prelude::*;

use crate::lift::decision_extractor::{
    is_class_like, is_method, is_shared, method_walk, methods_in, package_in, path_outcome, tree_methods,
    visible_effects, visible_writes, walk_table, with_method, MethodView, MethodsView,
};
use crate::lift::decision_laws::{law_table_faithful, lemma_method, method_run, row_applies};
use crate::lift::decision_walk::WalkView;
use crate::lift::merge_laws::{bare, holds_for};
use crate::lift::symbolic::StateView;
use crate::lift::syntax::{node_end, text_in_role, NodeView};
use crate::logic::table::TableView;
use crate::seqs::{lemma_filter_contains, lemma_push_contains};
use crate::text::{joined, occurs_at};
use crate::text_laws::{holds, law_joined_holds, lemma_holds_inside};

verus! {

/// Something that is done and can be seen from outside: a call, or a write to a
/// target that is not local.
pub open spec fn is_effect(st: StateView, locals: Seq<Seq<char>>, e: Seq<char>) -> bool {
    ||| st.calls.contains(e)
    ||| exists|i: int| 0 <= i < st.writes.len() && is_write(#[trigger] st.writes[i], locals, e)
}

/// The write is seen from outside as the text.
pub open spec fn is_write(write: (Seq<char>, Seq<char>), locals: Seq<Seq<char>>, e: Seq<char>) -> bool {
    !locals.contains(write.0) && e == write.0 + " = "@ + write.1
}

proof fn lemma_writes(writes: Seq<(Seq<char>, Seq<char>)>, locals: Seq<Seq<char>>, e: Seq<char>)
    ensures
        visible_writes(writes, locals).contains(e) <==> exists|i: int|
            0 <= i < writes.len() && is_write(#[trigger] writes[i], locals, e),
    decreases writes.len(),
{
    if writes.len() > 0 {
        let front = writes.drop_last();
        lemma_writes(front, locals, e);
        let before = visible_writes(front, locals);
        let all = visible_writes(writes, locals);
        if before.contains(e) {
            let i = choose|i: int| 0 <= i < before.len() && before[i] == e;
            assert(all[i] == e);
            let j = choose|j: int| 0 <= j < front.len() && is_write(#[trigger] front[j], locals, e);
            assert(is_write(writes[j], locals, e));
        }
        if is_write(writes.last(), locals, e) {
            assert(all[before.len() as int] == e);
            assert(is_write(writes[writes.len() - 1], locals, e));
        }
        if all.contains(e) {
            let i = choose|i: int| 0 <= i < all.len() && all[i] == e;
            if i < before.len() {
                assert(before[i] == e);
            }
        }
        if exists|i: int| 0 <= i < writes.len() && is_write(#[trigger] writes[i], locals, e) {
            let i = choose|i: int| 0 <= i < writes.len() && is_write(#[trigger] writes[i], locals, e);
            if i < front.len() {
                assert(is_write(front[i], locals, e));
            }
        }
    }
}

proof fn lemma_effects(st: StateView, locals: Seq<Seq<char>>, e: Seq<char>)
    ensures
        visible_effects(st, locals).contains(e) <==> is_effect(st, locals, e),
{
    lemma_writes(st.writes, locals, e);
    let a = visible_writes(st.writes, locals);
    let all = visible_effects(st, locals);
    if a.contains(e) {
        let i = choose|i: int| 0 <= i < a.len() && a[i] == e;
        assert(all[i] == e);
    }
    if st.calls.contains(e) {
        let i = choose|i: int| 0 <= i < st.calls.len() && st.calls[i] == e;
        assert(all[a.len() + i] == e);
    }
    if all.contains(e) {
        let i = choose|i: int| 0 <= i < all.len() && all[i] == e;
        if i < a.len() {
            assert(a[i] == e);
        } else {
            assert(st.calls[i - a.len()] == e);
        }
    }
}

/// The effect tells a path of the walk from another path: the path has it, and
/// some other path does not.
pub open spec fn sets_apart(w: WalkView, st: StateView, e: Seq<char>) -> bool {
    &&& is_effect(st, w.locals, e)
    &&& exists|j: int| 0 <= j < w.paths.len() && !is_effect((#[trigger] w.paths[j]).0, w.locals, e)
}

/// What is listed behind an ending, between braces.
pub open spec fn is_list(outcome: Seq<char>, ending: Seq<char>, parts: Seq<Seq<char>>) -> bool {
    if parts.len() == 0 {
        outcome == ending
    } else {
        outcome == ending + " {"@ + joined(parts, ", "@) + "}"@
    }
}

/// The outcome of a path is how it ends and, between braces, what tells it from
/// other paths: nothing else and all of it.
pub proof fn law_outcome_lists(w: WalkView, path: (StateView, Seq<char>)) -> (parts: Seq<Seq<char>>)
    ensures
        is_list(path_outcome(w, path), path.1, parts),
        forall|e: Seq<char>| #[trigger] parts.contains(e) <==> sets_apart(w, path.0, e),
{
    let p = |e: Seq<char>| !is_shared(w, e);
    let all = visible_effects(path.0, w.locals);
    let parts = all.filter(p);
    lemma_filter_contains(all, p);
    assert forall|e: Seq<char>| #[trigger] parts.contains(e) <==> sets_apart(w, path.0, e) by {
        lemma_effects(path.0, w.locals, e);
        assert(parts.contains(e) <==> all.contains(e) && p(e));
        if exists|j: int| 0 <= j < w.paths.len() && !is_effect((#[trigger] w.paths[j]).0, w.locals, e) {
            let j = choose|j: int| 0 <= j < w.paths.len() && !is_effect((#[trigger] w.paths[j]).0, w.locals, e);
            lemma_effects(w.paths[j].0, w.locals, e);
            assert(!visible_effects(w.paths[j].0, w.locals).contains(e));
        }
        if !is_shared(w, e) {
            let j = choose|j: int|
                0 <= j < w.paths.len() && !visible_effects((#[trigger] w.paths[j]).0, w.locals).contains(e);
            lemma_effects(w.paths[j].0, w.locals, e);
            assert(!is_effect(w.paths[j].0, w.locals, e));
        }
    }
    parts
}

proof fn lemma_named(outcome: Seq<char>, ending: Seq<char>, parts: Seq<Seq<char>>, e: Seq<char>)
    requires
        is_list(outcome, ending, parts),
        parts.contains(e),
    ensures
        holds(outcome, e),
{
    let i = choose|i: int| 0 <= i < parts.len() && parts[i] == e;
    law_joined_holds(parts, ", "@, i);
    lemma_holds_inside(ending + " {"@, joined(parts, ", "@), "}"@, e);
}

/// The outcome of a path names every effect that some other path does not have.
pub proof fn law_outcome_names_effects(w: WalkView, i: int, j: int, e: Seq<char>)
    requires
        0 <= i < w.paths.len(),
        0 <= j < w.paths.len(),
        is_effect(w.paths[i].0, w.locals, e),
        !is_effect(w.paths[j].0, w.locals, e),
    ensures
        holds(walk_table(w).rows[i].outcome, e),
{
    let parts = law_outcome_lists(w, w.paths[i]);
    assert(sets_apart(w, w.paths[i].0, e));
    assert(parts.contains(e));
    lemma_named(path_outcome(w, w.paths[i]), w.paths[i].1, parts, e);
}

/// The separator first stands behind the first part.
proof fn lemma_first_separator(first: Seq<char>, rest: Seq<char>, other: Seq<char>, more: Seq<char>)
    requires
        !holds(first, ", "@),
        !holds(other, ", "@),
        first + ", "@ + rest == other + ", "@ + more,
    ensures
        first == other,
        rest == more,
{
    reveal_strlit(", ");
    let n = first.len() as int;
    let m = other.len() as int;
    let a = first + ", "@ + rest;
    let b = other + ", "@ + more;
    if n < m {
        assert(a[n] == ',' && a[n + 1] == ' ');
        assert(b[n] == other[n]);
        if n + 1 < m {
            assert(b[n + 1] == other[n + 1]);
            assert(other.subrange(n, n + 2) =~= ", "@);
            assert(occurs_at(other, ", "@, n));
        } else {
            assert(b[n + 1] == ',');
        }
    } else if m < n {
        assert(b[m] == ',' && b[m + 1] == ' ');
        assert(a[m] == first[m]);
        if m + 1 < n {
            assert(a[m + 1] == first[m + 1]);
            assert(first.subrange(m, m + 2) =~= ", "@);
            assert(occurs_at(first, ", "@, m));
        } else {
            assert(a[m + 1] == ',');
        }
    }
    assert(first =~= a.take(n));
    assert(other =~= b.take(m));
    assert(rest =~= a.skip(n + 2));
    assert(more =~= b.skip(m + 2));
}

proof fn lemma_joined_head(parts: Seq<Seq<char>>, separator: Seq<char>)
    requires
        parts.len() > 1,
    ensures
        joined(parts, separator) == parts[0] + separator + joined(parts.skip(1), separator),
    decreases parts.len(),
{
    if parts.len() == 2 {
        assert(parts.drop_last() =~= seq![parts[0]]);
        assert(parts.skip(1) =~= seq![parts[1]]);
        assert(joined(seq![parts[0]], separator) == parts[0]);
        assert(joined(seq![parts[1]], separator) == parts[1]);
    } else {
        lemma_joined_head(parts.drop_last(), separator);
        assert(parts.drop_last().skip(1) =~= parts.skip(1).drop_last());
        assert(joined(parts, separator) =~= parts[0] + separator + joined(parts.skip(1), separator));
    }
}

/// No part holds the separator.
pub open spec fn are_plain(parts: Seq<Seq<char>>) -> bool {
    forall|i: int| 0 <= i < parts.len() ==> !holds(#[trigger] parts[i], ", "@)
}

proof fn lemma_joined_apart(a: Seq<Seq<char>>, b: Seq<Seq<char>>)
    requires
        are_plain(a),
        are_plain(b),
        a.len() > 0,
        b.len() > 0,
        joined(a, ", "@) == joined(b, ", "@),
    ensures
        a == b,
    decreases a.len(),
{
    let sep = ", "@;
    assert(!holds(a[0], sep));
    assert(!holds(b[0], sep));
    if a.len() > 1 {
        lemma_joined_head(a, sep);
    } else {
        assert(joined(a, sep) == a[0]);
    }
    if b.len() > 1 {
        lemma_joined_head(b, sep);
    } else {
        assert(joined(b, sep) == b[0]);
    }
    if a.len() > 1 && b.len() > 1 {
        lemma_first_separator(a[0], joined(a.skip(1), sep), b[0], joined(b.skip(1), sep));
        assert forall|i: int| 0 <= i < a.skip(1).len() implies !holds(#[trigger] a.skip(1)[i], sep) by {
            assert(!holds(a[i + 1], sep));
        }
        assert forall|i: int| 0 <= i < b.skip(1).len() implies !holds(#[trigger] b.skip(1)[i], sep) by {
            assert(!holds(b[i + 1], sep));
        }
        lemma_joined_apart(a.skip(1), b.skip(1));
        assert(a =~= seq![a[0]] + a.skip(1));
        assert(b =~= seq![b[0]] + b.skip(1));
    } else if a.len() > 1 {
        let rest = joined(a.skip(1), sep);
        assert(b[0].subrange(a[0].len() as int, (a[0].len() + sep.len()) as int) =~= sep);
        assert(occurs_at(b[0], sep, a[0].len() as int));
    } else if b.len() > 1 {
        assert(a[0].subrange(b[0].len() as int, (b[0].len() + sep.len()) as int) =~= sep);
        assert(occurs_at(a[0], sep, b[0].len() as int));
    } else {
        assert(a =~= b);
    }
}

/// No effect of the state holds a comma followed by a space.
pub open spec fn plain_effects(st: StateView, locals: Seq<Seq<char>>) -> bool {
    forall|e: Seq<char>| #[trigger] is_effect(st, locals, e) ==> !holds(e, ", "@)
}

/// Two paths that end alike have different outcomes when an effect tells one
/// path from the rest and is not an effect of the other, as long as no effect
/// holds the separator of the list.
pub proof fn law_outcomes_differ(w: WalkView, i: int, j: int, e: Seq<char>)
    requires
        0 <= i < w.paths.len(),
        0 <= j < w.paths.len(),
        w.paths[i].1 == w.paths[j].1,
        plain_effects(w.paths[i].0, w.locals),
        plain_effects(w.paths[j].0, w.locals),
        is_effect(w.paths[i].0, w.locals, e),
        !is_effect(w.paths[j].0, w.locals, e),
    ensures
        walk_table(w).rows[i].outcome != walk_table(w).rows[j].outcome,
{
    let ending = w.paths[i].1;
    let a = law_outcome_lists(w, w.paths[i]);
    let b = law_outcome_lists(w, w.paths[j]);
    assert(sets_apart(w, w.paths[i].0, e));
    assert(a.contains(e));
    assert(!b.contains(e));
    assert forall|k: int| 0 <= k < a.len() implies !holds(#[trigger] a[k], ", "@) by {
        assert(a.contains(a[k]));
        assert(is_effect(w.paths[i].0, w.locals, a[k]));
    }
    assert forall|k: int| 0 <= k < b.len() implies !holds(#[trigger] b[k], ", "@) by {
        assert(b.contains(b[k]));
        assert(is_effect(w.paths[j].0, w.locals, b[k]));
    }
    let x = walk_table(w).rows[i].outcome;
    let y = walk_table(w).rows[j].outcome;
    if x == y {
        if b.len() == 0 {
            reveal_strlit("}");
            assert(x.len() > ending.len());
        } else {
            let n = ending.len() + " {"@.len();
            assert(joined(a, ", "@) =~= x.subrange(n as int, x.len() - "}"@.len()));
            assert(joined(b, ", "@) =~= y.subrange(n as int, y.len() - "}"@.len()));
            lemma_joined_apart(a, b);
        }
    }
}

/// Where a method does something under one reading of its conditions that it
/// does not do under another, every row that applies under the first names it.
pub proof fn law_rows_name_effects(
    t: Seq<NodeView>,
    terminals: Seq<Seq<char>>,
    lo: int,
    hi: int,
    w: WalkView,
    truth: spec_fn(Seq<char>) -> bool,
    other: spec_fn(Seq<char>) -> bool,
    i: int,
    e: Seq<char>,
)
    requires
        method_walk(t, terminals, lo, hi) == Ok::<Option<WalkView>, Seq<char>>(Some(w)),
        is_effect(method_run(t, terminals, lo, hi, truth).0, w.locals, e),
        !is_effect(method_run(t, terminals, lo, hi, other).0, w.locals, e),
        0 <= i < walk_table(w).rows.len(),
        row_applies(walk_table(w).rows[i].when, walk_table(w).variables, truth),
    ensures
        holds(walk_table(w).rows[i].outcome, e),
{
    lemma_method(t, terminals, lo, hi, w, other);
    law_table_faithful(t, terminals, lo, hi, w, truth);
    let ran = method_run(t, terminals, lo, hi, truth);
    let j = choose|j: int| 0 <= j < w.paths.len() && holds_for((#[trigger] w.paths[j]).0.conds, w.atoms, other);
    let st = w.paths[j].0;
    assert(bare(st).writes == st.writes && bare(st).calls == st.calls);
    assert(!is_effect(w.paths[j].0, w.locals, e));
    let parts = law_outcome_lists(w, ran);
    assert(sets_apart(w, ran.0, e));
    assert(parts.contains(e));
    lemma_named(path_outcome(w, ran), ran.1, parts, e);
}

/// A declaration of a type that methods can stand in.
pub open spec fn declares_type(n: NodeView) -> bool {
    n.kind == "class_declaration"@ || n.kind == "interface_declaration"@ || n.kind == "enum_declaration"@ || n.kind
        == "record_declaration"@
}

pub open spec fn declares_method(n: NodeView) -> bool {
    n.kind == "method_declaration"@ || n.kind == "constructor_declaration"@
}

/// The method or constructor `p..e` is declared in the range `lo..hi`, inside
/// the types `names`; the range itself is inside the types `classes`.
pub open spec fn has_method(
    t: Seq<NodeView>,
    lo: int,
    hi: int,
    classes: Seq<Seq<char>>,
    p: int,
    e: int,
    names: Seq<Seq<char>>,
) -> bool
    decreases hi - lo,
{
    lo < hi && {
        let end = node_end(t, lo, hi);
        ||| has_method(t, end, hi, classes, p, e, names)
        ||| declares_method(t[lo]) && p == lo && e == end && names == classes
        ||| declares_type(t[lo]) && has_method(
            t,
            lo + 1,
            end,
            classes.push(text_in_role(t, lo, end, "name"@)),
            p,
            e,
            names,
        )
        ||| !declares_method(t[lo]) && !declares_type(t[lo]) && has_method(t, lo + 1, end, classes, p, e, names)
    }
}

/// What is reported of a method: its table, or why it was skipped.
pub open spec fn is_reported(
    t: Seq<NodeView>,
    terminals: Seq<Seq<char>>,
    class_fqn: Seq<char>,
    p: int,
    e: int,
    found: MethodsView,
) -> bool {
    let name = text_in_role(t, p, e, "name"@);
    match method_walk(t, terminals, p, e) {
        Ok(Some(w)) => found.methods.contains(
            MethodView {
                class_fqn,
                method_name: name,
                start_line: t[p].start_row + 1,
                table: walk_table(w),
                incomplete: w.incomplete,
            },
        ),
        Ok(None) => true,
        Err(reason) => found.skipped.contains(
            (
                if class_fqn.len() == 0 {
                    name
                } else {
                    class_fqn + "."@ + name
                },
                reason,
            ),
        ),
    }
}

/// The names of the package and of the types, with dots between.
pub open spec fn dotted(package: Option<Seq<char>>, names: Seq<Seq<char>>) -> Seq<char> {
    match package {
        Some(p) => joined(seq![p] + names, "."@),
        None => joined(names, "."@),
    }
}

spec fn is_more(found: MethodsView, after: MethodsView) -> bool {
    &&& forall|m: MethodView| found.methods.contains(m) ==> #[trigger] after.methods.contains(m)
    &&& forall|m: (Seq<char>, Seq<char>)| found.skipped.contains(m) ==> #[trigger] after.skipped.contains(m)
}

proof fn lemma_with_method(
    t: Seq<NodeView>,
    terminals: Seq<Seq<char>>,
    package: Option<Seq<char>>,
    classes: Seq<Seq<char>>,
    lo: int,
    hi: int,
    found: MethodsView,
)
    ensures
        is_more(found, with_method(t, terminals, package, classes, lo, hi, found)),
        is_reported(
            t,
            terminals,
            dotted(package, classes),
            lo,
            hi,
            with_method(t, terminals, package, classes, lo, hi, found),
        ),
{
    match method_walk(t, terminals, lo, hi) {
        Ok(Some(w)) => {
            let after = with_method(t, terminals, package, classes, lo, hi, found);
            lemma_push_contains(found.methods, after.methods.last());
        },
        Ok(None) => {},
        Err(reason) => {
            let after = with_method(t, terminals, package, classes, lo, hi, found);
            lemma_push_contains(found.skipped, after.skipped.last());
        },
    }
}

proof fn lemma_methods_more(
    t: Seq<NodeView>,
    terminals: Seq<Seq<char>>,
    package: Option<Seq<char>>,
    classes: Seq<Seq<char>>,
    lo: int,
    hi: int,
    found: MethodsView,
)
    ensures
        is_more(found, methods_in(t, terminals, package, classes, lo, hi, found)),
    decreases hi - lo,
{
    if lo < hi {
        let end = node_end(t, lo, hi);
        let inner = classes.push(text_in_role(t, lo, end, "name"@));
        lemma_methods_more(t, terminals, package, inner, lo + 1, end, found);
        lemma_with_method(t, terminals, package, classes, lo, end, found);
        lemma_methods_more(t, terminals, package, classes, lo + 1, end, found);
        let here = if is_class_like(t[lo]) {
            methods_in(t, terminals, package, inner, lo + 1, end, found)
        } else if is_method(t[lo]) {
            with_method(t, terminals, package, classes, lo, end, found)
        } else {
            methods_in(t, terminals, package, classes, lo + 1, end, found)
        };
        lemma_methods_more(t, terminals, package, classes, end, hi, here);
    }
}

proof fn lemma_methods_listed(
    t: Seq<NodeView>,
    terminals: Seq<Seq<char>>,
    package: Option<Seq<char>>,
    classes: Seq<Seq<char>>,
    lo: int,
    hi: int,
    found: MethodsView,
    p: int,
    e: int,
    names: Seq<Seq<char>>,
)
    requires
        has_method(t, lo, hi, classes, p, e, names),
    ensures
        is_reported(
            t,
            terminals,
            dotted(package, names),
            p,
            e,
            methods_in(t, terminals, package, classes, lo, hi, found),
        ),
    decreases hi - lo,
{
    let end = node_end(t, lo, hi);
    let inner = classes.push(text_in_role(t, lo, end, "name"@));
    let here = if is_class_like(t[lo]) {
        methods_in(t, terminals, package, inner, lo + 1, end, found)
    } else if is_method(t[lo]) {
        with_method(t, terminals, package, classes, lo, end, found)
    } else {
        methods_in(t, terminals, package, classes, lo + 1, end, found)
    };
    lemma_methods_more(t, terminals, package, classes, end, hi, here);
    if has_method(t, end, hi, classes, p, e, names) {
        lemma_methods_listed(t, terminals, package, classes, end, hi, here, p, e, names);
    } else if declares_type(t[lo]) && has_method(t, lo + 1, end, inner, p, e, names) {
        lemma_methods_listed(t, terminals, package, inner, lo + 1, end, found, p, e, names);
    } else if declares_method(t[lo]) {
        reveal_strlit("method_declaration");
        reveal_strlit("constructor_declaration");
        reveal_strlit("class_declaration");
        reveal_strlit("interface_declaration");
        reveal_strlit("enum_declaration");
        reveal_strlit("record_declaration");
        assert("method_declaration"@[0] == 'm');
        assert("constructor_declaration"@[1] == 'o');
        assert("class_declaration"@[1] == 'l');
        assert("interface_declaration"@[0] == 'i');
        assert("enum_declaration"@[0] == 'e');
        assert("record_declaration"@[0] == 'r');
        lemma_with_method(t, terminals, package, classes, lo, end, found);
    } else {
        lemma_methods_listed(t, terminals, package, classes, lo + 1, end, found, p, e, names);
    }
}

/// Every method and constructor of a source with a body that branches is
/// reported under its qualified name, with its table or the reason why it has
/// none.
pub proof fn law_methods_reported(
    t: Seq<NodeView>,
    terminals: Seq<Seq<char>>,
    p: int,
    e: int,
    names: Seq<Seq<char>>,
)
    requires
        has_method(t, 0, t.len() as int, Seq::empty(), p, e, names),
    ensures
        is_reported(
            t,
            terminals,
            dotted(package_in(t, 1, t.len() as int), names),
            p,
            e,
            tree_methods(t, terminals),
        ),
{
    lemma_methods_listed(
        t,
        terminals,
        package_in(t, 1, t.len() as int),
        Seq::empty(),
        0,
        t.len() as int,
        MethodsView::empty(),
        p,
        e,
        names,
    );
}

proof fn lemma_method_of(
    t: Seq<NodeView>,
    terminals: Seq<Seq<char>>,
    package: Option<Seq<char>>,
    classes: Seq<Seq<char>>,
    lo: int,
    hi: int,
    found: MethodsView,
    k: int,
) -> (r: (int, int, Seq<Seq<char>>))
    requires
        found.methods.len() <= k < methods_in(t, terminals, package, classes, lo, hi, found).methods.len(),
    ensures
        has_method(t, lo, hi, classes, r.0, r.1, r.2),
        method_walk(t, terminals, r.0, r.1) matches Ok(Some(w)) && methods_in(
            t,
            terminals,
            package,
            classes,
            lo,
            hi,
            found,
        ).methods[k] == (MethodView {
            class_fqn: dotted(package, r.2),
            method_name: text_in_role(t, r.0, r.1, "name"@),
            start_line: t[r.0].start_row + 1,
            table: walk_table(w),
            incomplete: w.incomplete,
        }),
    decreases hi - lo,
{
    let end = node_end(t, lo, hi);
    let inner = classes.push(text_in_role(t, lo, end, "name"@));
    let here = if is_class_like(t[lo]) {
        methods_in(t, terminals, package, inner, lo + 1, end, found)
    } else if is_method(t[lo]) {
        with_method(t, terminals, package, classes, lo, end, found)
    } else {
        methods_in(t, terminals, package, classes, lo + 1, end, found)
    };
    lemma_methods_kept(t, terminals, package, classes, end, hi, here);
    let all = methods_in(t, terminals, package, classes, lo, hi, found);
    assert(all == methods_in(t, terminals, package, classes, end, hi, here));
    if k < here.methods.len() {
        assert(here.methods[k] == all.methods[k]);
    }
    if k >= here.methods.len() {
        lemma_method_of(t, terminals, package, classes, end, hi, here, k)
    } else if is_class_like(t[lo]) {
        lemma_method_of(t, terminals, package, inner, lo + 1, end, found, k)
    } else if is_method(t[lo]) {
        (lo, end, classes)
    } else {
        lemma_method_of(t, terminals, package, classes, lo + 1, end, found, k)
    }
}

proof fn lemma_methods_kept(
    t: Seq<NodeView>,
    terminals: Seq<Seq<char>>,
    package: Option<Seq<char>>,
    classes: Seq<Seq<char>>,
    lo: int,
    hi: int,
    found: MethodsView,
)
    ensures
        found.methods.is_prefix_of(methods_in(t, terminals, package, classes, lo, hi, found).methods),
    decreases hi - lo,
{
    let all = methods_in(t, terminals, package, classes, lo, hi, found);
    if lo < hi {
        let end = node_end(t, lo, hi);
        let inner = classes.push(text_in_role(t, lo, end, "name"@));
        lemma_methods_kept(t, terminals, package, inner, lo + 1, end, found);
        lemma_methods_kept(t, terminals, package, classes, lo + 1, end, found);
        let here = if is_class_like(t[lo]) {
            methods_in(t, terminals, package, inner, lo + 1, end, found)
        } else if is_method(t[lo]) {
            with_method(t, terminals, package, classes, lo, end, found)
        } else {
            methods_in(t, terminals, package, classes, lo + 1, end, found)
        };
        lemma_methods_kept(t, terminals, package, classes, end, hi, here);
        assert(found.methods.is_prefix_of(here.methods)) by {
            assert(found.methods =~= here.methods.subrange(0, found.methods.len() as int));
        }
        assert forall|i: int| 0 <= i < found.methods.len() implies found.methods[i] == all.methods[i] by {
            assert(found.methods[i] == here.methods[i]);
            assert(here.methods[i] == all.methods[i]);
        }
    }
    assert(found.methods =~= all.methods.subrange(0, found.methods.len() as int));
}

/// Every reported table is that of a method or constructor of the source, and
/// its rows name what tells one way through that method from another.
pub proof fn law_reported_methods(t: Seq<NodeView>, terminals: Seq<Seq<char>>, k: int) -> (r: (
    int,
    int,
    Seq<Seq<char>>,
))
    requires
        0 <= k < tree_methods(t, terminals).methods.len(),
    ensures
        has_method(t, 0, t.len() as int, Seq::empty(), r.0, r.1, r.2),
        tree_methods(t, terminals).methods[k].class_fqn == dotted(package_in(t, 1, t.len() as int), r.2),
        tree_methods(t, terminals).methods[k].method_name == text_in_role(t, r.0, r.1, "name"@),
        tree_methods(t, terminals).methods[k].start_line == t[r.0].start_row + 1,
        method_walk(t, terminals, r.0, r.1) matches Ok(Some(w)) && rows_tell(
            t,
            terminals,
            r.0,
            r.1,
            w.locals,
            tree_methods(t, terminals).methods[k].table,
        ),
{
    let r = lemma_method_of(
        t,
        terminals,
        package_in(t, 1, t.len() as int),
        Seq::empty(),
        0,
        t.len() as int,
        MethodsView::empty(),
        k,
    );
    let w = method_walk(t, terminals, r.0, r.1)->Ok_0->Some_0;
    let table = tree_methods(t, terminals).methods[k].table;
    assert(table == walk_table(w));
    assert forall|truth: spec_fn(Seq<char>) -> bool, other: spec_fn(Seq<char>) -> bool, i: int, e: Seq<char>|
        0 <= i < table.rows.len() && row_applies(table.rows[i].when, table.variables, truth) && #[trigger] parts_runs(
            t,
            terminals,
            r.0,
            r.1,
            w.locals,
            truth,
            other,
            e,
        ) implies holds((#[trigger] table.rows[i]).outcome, e) by {
        law_rows_name_effects(t, terminals, r.0, r.1, w, truth, other, i, e);
    }
    r
}

/// The method does something with the conditions read one way that it does not
/// do with them read the other way.
pub open spec fn parts_runs(
    t: Seq<NodeView>,
    terminals: Seq<Seq<char>>,
    lo: int,
    hi: int,
    locals: Seq<Seq<char>>,
    truth: spec_fn(Seq<char>) -> bool,
    other: spec_fn(Seq<char>) -> bool,
    e: Seq<char>,
) -> bool {
    &&& is_effect(method_run(t, terminals, lo, hi, truth).0, locals, e)
    &&& !is_effect(method_run(t, terminals, lo, hi, other).0, locals, e)
}

/// Every row names what is done where it applies and is not always done.
pub open spec fn rows_tell(
    t: Seq<NodeView>,
    terminals: Seq<Seq<char>>,
    lo: int,
    hi: int,
    locals: Seq<Seq<char>>,
    table: TableView,
) -> bool {
    forall|truth: spec_fn(Seq<char>) -> bool, other: spec_fn(Seq<char>) -> bool, i: int, e: Seq<char>|
        0 <= i < table.rows.len() && row_applies(table.rows[i].when, table.variables, truth) && #[trigger] parts_runs(
            t,
            terminals,
            lo,
            hi,
            locals,
            truth,
            other,
            e,
        ) ==> holds((#[trigger] table.rows[i]).outcome, e)
}

} // verus!
