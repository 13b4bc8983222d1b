//! What the checks of a space report, and how names are looked up.

use vstd::prelude::*;

use crate::invariants::{
    all_found, both_ways, cut_off, AcyclicityCheck, BuiltInCheck, InvariantCheck, ReachabilityCheck, ViolationSeverity,
    ViolationView,
};
use crate::lift::relation_laws::stands_among;
use crate::lift::syntax::{child_in_role, first_named, level_end, named_sibling, node_end, sibling_in_role, NodeView};
use crate::lines::{ends, lines, trimmed};
use crate::model::entity::JavaEntityType;
use crate::model::graph::{CellView, LinkView};
use crate::model::space_data::{EntityView, SpaceView};
use crate::model::store::{simple_cycles, valid_id, StoreView};
use crate::query::enrich::{candidates_in, container_name, enriched, first_container, is_candidate};
use crate::query::feature_laws::is_asked;
use crate::query::reach::{is_edge, is_path, is_reachable, law_reached, reached};
use crate::query::resolve::{cell_with, entity_with, name_of, resolved, shortest_ending};
use crate::seqs::lemma_push_contains;
use crate::text::{joined, utf8_length};
use crate::text_map::lookup;

verus! {

/// A relation joins the cells, in either direction.
pub open spec fn joins(links: Seq<LinkView>, a: Seq<char>, b: Seq<char>) -> bool {
    exists|i: int|
        0 <= i < links.len() && ((#[trigger] links[i]).from == a && links[i].to == b || links[i].from == b && links[i].to
            == a)
}

proof fn lemma_both_ways(links: Seq<LinkView>, a: Seq<char>, b: Seq<char>)
    ensures
        both_ways(links).contains((a, b)) <==> joins(links, a, b),
    decreases links.len(),
{
    if links.len() > 0 {
        let front = links.drop_last();
        let l = links.last();
        lemma_both_ways(front, a, b);
        let before = both_ways(front);
        lemma_push_contains(before, (l.from, l.to));
        lemma_push_contains(before.push((l.from, l.to)), (l.to, l.from));
        assert forall|i: int| 0 <= i < front.len() implies #[trigger] links[i] == front[i] by {}
        assert(links[links.len() - 1] == l);
        if joins(front, a, b) {
            let i = choose|i: int|
                0 <= i < front.len() && ((#[trigger] front[i]).from == a && front[i].to == b || front[i].from == b
                    && front[i].to == a);
            assert(links[i] == front[i]);
        }
    }
}

/// A way of `n` relations leads from one cell to the other.
pub open spec fn is_way(links: Seq<LinkView>, from: Seq<char>, to: Seq<char>, n: nat) -> bool
    decreases n,
{
    if n == 0 {
        from == to
    } else {
        exists|mid: Seq<char>| #[trigger] joins(links, mid, to) && is_way(links, from, mid, (n - 1) as nat)
    }
}

proof fn lemma_way(links: Seq<LinkView>, from: Seq<char>, to: Seq<char>, n: nat)
    ensures
        is_way(links, from, to, n) == is_path(both_ways(links), from, to, n),
    decreases n,
{
    if n > 0 {
        if is_way(links, from, to, n) {
            let mid = choose|mid: Seq<char>| #[trigger] joins(links, mid, to) && is_way(links, from, mid, (n - 1) as nat);
            lemma_both_ways(links, mid, to);
            lemma_way(links, from, mid, (n - 1) as nat);
            assert(is_edge(both_ways(links), mid, to));
        }
        if is_path(both_ways(links), from, to, n) {
            let mid = choose|mid: Seq<char>| #[trigger]
                is_edge(both_ways(links), mid, to) && is_path(both_ways(links), from, mid, (n - 1) as nat);
            lemma_both_ways(links, mid, to);
            lemma_way(links, from, mid, (n - 1) as nat);
            assert(joins(links, mid, to));
        }
    }
}

/// What is said of a cell that is not connected with the first one.
pub open spec fn says_cut_off(c: CellView, v: ViolationView) -> bool {
    &&& v.invariant_name == "reachability"@
    &&& v.cell_id == Some(c.id)
    &&& v.severity == ViolationSeverity::Warning
    &&& c.label matches Some(l) ==> v.message == "Cell '"@ + l + "' is unreachable from the space root"@
}

proof fn lemma_cut_off(visited: Seq<Seq<char>>, cells: Seq<CellView>)
    ensures
        ({
            let own = cells.filter(|c: CellView| !visited.contains(c.id));
            &&& cut_off(visited, cells).len() == own.len()
            &&& forall|i: int| 0 <= i < own.len() ==> says_cut_off(#[trigger] own[i], cut_off(visited, cells)[i])
        }),
    decreases cells.len(),
{
    reveal(Seq::filter);
    if cells.len() > 0 {
        let front = cells.drop_last();
        let c = cells.last();
        lemma_cut_off(visited, front);
        let p = |c: CellView| !visited.contains(c.id);
        let before = front.filter(p);
        let own = cells.filter(p);
        let all = cut_off(visited, cells);
        if p(c) {
            let v = all.last();
            if let Some(l) = c.label {
                reveal_strlit("' ");
                reveal_strlit("is unreachable from the space root");
                reveal_strlit("' is unreachable from the space root");
                assert("' "@ + "is unreachable from the space root"@ =~= "' is unreachable from the space root"@);
                assert(v.message =~= "Cell '"@ + l + ("' "@ + "is unreachable from the space root"@));
            }
            assert(says_cut_off(c, v));
        }
        assert forall|i: int| 0 <= i < own.len() implies says_cut_off(#[trigger] own[i], all[i]) by {
            if i < before.len() {
                assert(own[i] == before[i]);
            }
        }
    }
}

/// Without a store, the cells that are reported are those that no way over
/// relations, taken in either direction, leads to from the first cell.
pub proof fn law_reachability(space: SpaceView, i: int)
    requires
        0 <= i < space.cells.len(),
    ensures
        (exists|k: int|
            0 <= k < ReachabilityCheck.found(space, None).len() && (#[trigger] ReachabilityCheck.found(
                space,
                None,
            )[k]).cell_id == Some(space.cells[i].id)) <==> forall|n: nat|
            !is_way(space.links, space.cells[0].id, space.cells[i].id, n),
{
    let root = space.cells[0].id;
    let id = space.cells[i].id;
    let edges = both_ways(space.links);
    let visited = reached(edges, root);
    let found = ReachabilityCheck.found(space, None);
    let p = |c: CellView| !visited.contains(c.id);
    let own = space.cells.filter(p);
    law_reached(edges, root, id);
    lemma_cut_off(visited, space.cells);
    crate::seqs::lemma_filter_contains(space.cells, p);
    assert forall|n: nat| is_way(space.links, root, id, n) == is_path(edges, root, id, n) by {
        lemma_way(space.links, root, id, n);
    }
    if forall|n: nat| !is_way(space.links, root, id, n) {
        assert(!is_reachable(edges, root, id)) by {
            if is_reachable(edges, root, id) {
                let n = choose|n: nat| is_path(edges, root, id, n);
                assert(is_way(space.links, root, id, n));
            }
        }
        assert(space.cells.contains(space.cells[i]));
        assert(own.contains(space.cells[i]));
        let k = choose|k: int| 0 <= k < own.len() && own[k] == space.cells[i];
        assert(says_cut_off(own[k], found[k]));
    }
    if exists|k: int| 0 <= k < found.len() && (#[trigger] found[k]).cell_id == Some(id) {
        let k = choose|k: int| 0 <= k < found.len() && (#[trigger] found[k]).cell_id == Some(id);
        assert(says_cut_off(own[k], found[k]));
        assert(own.contains(own[k]));
        assert(p(own[k]));
        assert(!is_reachable(edges, root, id));
        assert forall|n: nat| !is_way(space.links, root, id, n) by {
            if is_way(space.links, root, id, n) {
                assert(is_path(edges, root, id, n));
            }
        }
    }
}

/// The cycles that are looked for are those of inheritance, of at most ten
/// types and no more than twenty of them.
pub proof fn law_acyclicity(space: SpaceView, store: StoreView, i: int)
    requires
        store.spaces.contains(trimmed(space.id)),
        valid_id(space.id),
    ensures
        ({
            let cycles = simple_cycles(store.cells, store.links, trimmed(space.id), "java.extends"@, 10, 20);
            let found = AcyclicityCheck.found(space, Some(store));
            &&& found.len() == cycles.len()
            &&& 0 <= i < cycles.len() ==> {
                &&& found[i].severity == ViolationSeverity::Error
                &&& found[i].invariant_name == "acyclicity"@
                &&& cycles[i].len() > 0 ==> found[i].cell_id == Some(cycles[i][0])
            }
        }),
{
}

/// All checks together find what each of them finds.
pub proof fn law_all_checks(
    checks: Seq<BuiltInCheck>,
    space: SpaceView,
    store: Option<StoreView>,
    v: ViolationView,
)
    ensures
        all_found(checks, space, store).contains(v) <==> exists|i: int|
            0 <= i < checks.len() && (#[trigger] checks[i]).found(space, store).contains(v),
    decreases checks.len(),
{
    if checks.len() > 0 {
        let front = checks.drop_last();
        law_all_checks(front, space, store, v);
        crate::seqs::lemma_plus_contains(all_found(front, space, store), checks.last().found(space, store));
        assert forall|i: int| 0 <= i < front.len() implies #[trigger] checks[i] == front[i] by {}
        assert(checks[checks.len() - 1] == checks.last());
        if all_found(front, space, store).contains(v) {
            let i = choose|i: int| 0 <= i < front.len() && (#[trigger] front[i]).found(space, store).contains(v);
            assert(checks[i] == front[i]);
        }
    }
}

proof fn lemma_shortest(index: Seq<(Seq<char>, Seq<char>)>, suffix: Seq<char>)
    ensures
        match shortest_ending(index, suffix) {
            Some(i) => 0 <= i < index.len() && ends(index[i].0, suffix) && forall|j: int|
                0 <= j < index.len() && ends((#[trigger] index[j]).0, suffix) ==> utf8_length(index[i].0)
                    <= utf8_length(index[j].0) && (utf8_length(index[i].0) == utf8_length(index[j].0) ==> i <= j),
            None => forall|j: int| 0 <= j < index.len() ==> !ends((#[trigger] index[j]).0, suffix),
        },
    decreases index.len(),
{
    if index.len() > 0 {
        let front = index.drop_last();
        lemma_shortest(front, suffix);
        assert forall|j: int| 0 <= j < front.len() implies #[trigger] index[j] == front[j] by {}
    }
}

/// A symbol that is no full name stands for the shortest known name that ends
/// with it behind a dot, the first of them where several are equally short.
pub proof fn law_resolved_by_ending(index: Seq<(Seq<char>, Seq<char>)>, symbol: Seq<char>)
    requires
        lookup(index, symbol) is None,
    ensures
        match resolved(index, symbol) {
            Some(found) => exists|i: int|
                0 <= i < index.len() && #[trigger] index[i] == found && ends(found.0, "."@ + symbol) && forall|j: int|
                    0 <= j < index.len() && ends((#[trigger] index[j]).0, "."@ + symbol) ==> utf8_length(found.0)
                        <= utf8_length(index[j].0) && (utf8_length(found.0) == utf8_length(index[j].0) ==> i <= j),
            None => forall|j: int| 0 <= j < index.len() ==> !ends((#[trigger] index[j]).0, "."@ + symbol),
        },
{
    lemma_shortest(index, "."@ + symbol);
    if let Some(i) = shortest_ending(index, "."@ + symbol) {
        assert(index[i] == resolved(index, symbol)->Some_0);
    }
}

proof fn lemma_first_container(links: Seq<LinkView>, id: Seq<char>)
    ensures
        match first_container(links, id) {
            Some(to) => exists|i: int|
                0 <= i < links.len() && (#[trigger] links[i]).from == id && links[i].relation == "java.contained_in"@
                    && links[i].to == to,
            None => forall|i: int|
                0 <= i < links.len() && (#[trigger] links[i]).from == id ==> links[i].relation
                    != "java.contained_in"@,
        },
    decreases links.len(),
{
    if links.len() > 0 {
        let front = links.drop_last();
        lemma_first_container(front, id);
        assert forall|i: int| 0 <= i < front.len() implies #[trigger] links[i] == front[i] by {}
        assert(links[links.len() - 1] == links.last());
        if let Some(to) = first_container(front, id) {
            let i = choose|i: int|
                0 <= i < front.len() && (#[trigger] front[i]).from == id && front[i].relation == "java.contained_in"@
                    && front[i].to == to;
            assert(links[i] == front[i]);
        }
    }
}

/// A request to enrich a symbol tells what is known of it: its kind, label and
/// place, its text from the first line to the last, and what contains it.
pub proof fn law_enriched(
    space: SpaceView,
    symbol: Seq<char>,
    sources: Seq<(Seq<char>, Seq<char>)>,
    fqn: Seq<char>,
    id: Seq<char>,
    i: int,
    k: int,
)
    requires
        resolved(space.index, symbol) == Some((fqn, id)),
        entity_with(space.entities, id) == Some(i),
        cell_with(space.cells, id) == Some(k),
    ensures
        enriched(space, symbol, sources) matches Ok(r) && {
            let e = space.entities[i];
            &&& r.symbol == fqn
            &&& r.file == e.witness.file
            &&& r.start_line == e.witness.start_line
            &&& r.end_line == e.witness.end_line
            &&& space.cells[k].label matches Some(l) ==> r.signature == l
            &&& lookup(sources, e.witness.file) matches Some(text) ==> e.witness.file.len() > 0 && 1
                <= e.witness.start_line <= e.witness.end_line <= lines(text).len() ==> r.source_code == joined(
                lines(text).subrange(e.witness.start_line - 1, e.witness.end_line as int),
                "\n"@,
            )
            &&& lookup(sources, e.witness.file) is None ==> r.source_code.len() == 0
            &&& r.containing_class matches Some(name) ==> exists|j: int|
                0 <= j < space.links.len() && (#[trigger] space.links[j]).from == id && space.links[j].relation
                    == "java.contained_in"@ && name_of(space.index, space.links[j].to) == Some(name)
            &&& (forall|j: int|
                0 <= j < space.links.len() && (#[trigger] space.links[j]).from == id ==> space.links[j].relation
                    != "java.contained_in"@) ==> r.containing_class is None
        },
{
    lemma_first_container(space.links, id);
    if let Some(to) = first_container(space.links, id) {
        let j = choose|j: int|
            0 <= j < space.links.len() && (#[trigger] space.links[j]).from == id && space.links[j].relation
                == "java.contained_in"@ && space.links[j].to == to;
        assert(name_of(space.index, space.links[j].to) == container_name(space, id));
    }
}

/// What can be enriched: a method, constructor, class or interface in the scope
/// that has no annotation.
pub open spec fn is_open(space: SpaceView, e: EntityView, scope: Option<Seq<char>>) -> bool {
    &&& e.entity_type == JavaEntityType::Method || e.entity_type == JavaEntityType::Constructor || e.entity_type
        == JavaEntityType::Class || e.entity_type == JavaEntityType::Interface
    &&& lookup(space.annotations, e.cell_id) is None
    &&& is_asked(e.fqn, scope)
}

/// The first of the open entities are taken, as many as asked for.
pub proof fn law_candidates(
    entities: Seq<EntityView>,
    space: SpaceView,
    scope: Option<Seq<char>>,
    limit: usize,
    i: int,
)
    ensures
        ({
            let own = entities.filter(|e: EntityView| is_open(space, e, scope));
            let all = candidates_in(entities, space, scope, limit);
            &&& own.len() <= limit ==> all.len() == own.len()
            &&& own.len() > limit ==> all.len() == limit
            &&& 0 <= i < all.len() ==> all[i] == own[i].fqn
        }),
    decreases entities.len(),
{
    reveal(Seq::filter);
    if entities.len() > 0 {
        let e = entities.last();
        law_candidates(entities.drop_last(), space, scope, limit, i);
        if let Some(s) = scope {
            crate::text::lemma_find(crate::text::lowercase(e.fqn), s, 0);
        }
        assert(is_candidate(e, space, scope) == is_open(space, e, scope));
    }
}

/// A node ends before the first node behind it that is not deeper.
pub proof fn law_node_end(t: Seq<NodeView>, lo: int, hi: int)
    requires
        lo < hi,
    ensures
        lo < node_end(t, lo, hi) <= hi,
        forall|i: int| lo < i < node_end(t, lo, hi) ==> (#[trigger] t[i]).depth > t[lo].depth,
        node_end(t, lo, hi) < hi ==> t[node_end(t, lo, hi)].depth <= t[lo].depth,
{
    lemma_level(t, t[lo].depth, lo + 1, hi);
}

proof fn lemma_level(t: Seq<NodeView>, depth: u32, from: int, hi: int)
    requires
        from <= hi,
    ensures
        from <= level_end(t, depth, from, hi) <= hi,
        forall|i: int| from <= i < level_end(t, depth, from, hi) ==> (#[trigger] t[i]).depth > depth,
        level_end(t, depth, from, hi) < hi ==> t[level_end(t, depth, from, hi)].depth <= depth,
    decreases hi - from,
{
    if from < hi && t[from].depth > depth {
        lemma_level(t, depth, from + 1, hi);
    }
}

proof fn lemma_sibling(t: Seq<NodeView>, lo: int, hi: int, field: Seq<char>)
    ensures
        match sibling_in_role(t, lo, hi, field) {
            Some((a, b)) => stands_among(t, lo, hi, a) && t[a].field == field && b == node_end(t, a, hi) && lo <= a < hi
                && forall|q: int| #[trigger] stands_among(t, lo, hi, q) && t[q].field == field ==> a <= q,
            None => forall|q: int| #[trigger] stands_among(t, lo, hi, q) ==> t[q].field != field,
        },
    decreases hi - lo,
{
    if lo < hi {
        let end = node_end(t, lo, hi);
        law_node_end(t, lo, hi);
        lemma_sibling(t, end, hi, field);
        assert forall|q: int| #[trigger] stands_among(t, lo, hi, q) implies q == lo || stands_among(t, end, hi, q) by {}
        assert(stands_among(t, lo, hi, lo));
        if t[lo].field == field {
            assert forall|q: int| #[trigger] stands_among(t, lo, hi, q) && t[q].field == field implies lo <= q by {
                lemma_among(t, lo, hi, q);
            }
        } else if let Some((a, b)) = sibling_in_role(t, end, hi, field) {
            assert(stands_among(t, lo, hi, a));
        }
    }
}

proof fn lemma_among(t: Seq<NodeView>, lo: int, hi: int, q: int)
    requires
        stands_among(t, lo, hi, q),
    ensures
        lo <= q < hi,
    decreases hi - lo,
{
    law_node_end(t, lo, hi);
    if q != lo {
        lemma_among(t, node_end(t, lo, hi), hi, q);
    }
}

/// A child in a role is the first child of the node that has the role.
pub proof fn law_child_in_role(t: Seq<NodeView>, lo: int, hi: int, field: Seq<char>)
    requires
        lo < hi,
    ensures
        match child_in_role(t, lo, hi, field) {
            Some((a, b)) => stands_among(t, lo + 1, hi, a) && t[a].field == field && b == node_end(t, a, hi) && forall|
                q: int,
            | #[trigger] stands_among(t, lo + 1, hi, q) && t[q].field == field ==> a <= q,
            None => forall|q: int| #[trigger] stands_among(t, lo + 1, hi, q) ==> t[q].field != field,
        },
{
    lemma_sibling(t, lo + 1, hi, field);
    if let Some((a, b)) = sibling_in_role(t, lo + 1, hi, field) {
        law_node_end(t, a, hi);
    }
}

proof fn lemma_named(t: Seq<NodeView>, lo: int, hi: int)
    ensures
        match named_sibling(t, lo, hi) {
            Some((a, b)) => stands_among(t, lo, hi, a) && t[a].named && b == node_end(t, a, hi) && lo <= a < hi
                && forall|q: int| #[trigger] stands_among(t, lo, hi, q) && t[q].named ==> a <= q,
            None => forall|q: int| #[trigger] stands_among(t, lo, hi, q) ==> !t[q].named,
        },
    decreases hi - lo,
{
    if lo < hi {
        let end = node_end(t, lo, hi);
        law_node_end(t, lo, hi);
        lemma_named(t, end, hi);
        assert forall|q: int| #[trigger] stands_among(t, lo, hi, q) implies q == lo || stands_among(t, end, hi, q) by {}
        assert(stands_among(t, lo, hi, lo));
        if t[lo].named {
            assert forall|q: int| #[trigger] stands_among(t, lo, hi, q) && t[q].named implies lo <= q by {
                lemma_among(t, lo, hi, q);
            }
        } else if let Some((a, b)) = named_sibling(t, end, hi) {
            assert(stands_among(t, lo, hi, a));
        }
    }
}

/// The first named child of a node.
pub proof fn law_first_named(t: Seq<NodeView>, lo: int, hi: int)
    requires
        lo < hi,
    ensures
        match first_named(t, lo, hi) {
            Some((a, b)) => stands_among(t, lo + 1, hi, a) && t[a].named && b == node_end(t, a, hi) && forall|q: int|
                #[trigger] stands_among(t, lo + 1, hi, q) && t[q].named ==> a <= q,
            None => forall|q: int| #[trigger] stands_among(t, lo + 1, hi, q) ==> !t[q].named,
        },
{
    lemma_named(t, lo + 1, hi);
    if let Some((a, b)) = named_sibling(t, lo + 1, hi) {
        law_node_end(t, a, hi);
    }
}

} // verus!
