//! What is asked about the uses of a name is answered from the relations.

use vstd::prelude::*;

use crate::lines::{begins, lines, trimmed_start};
use crate::model::entity::{cell_type_of, entity_type_name, JavaEntityType};
use crate::model::graph::{CellView, LinkView};
use crate::model::space_data::{EntityView, SpaceView};
use crate::order::{lemma_stable_sorted, lemma_stable_sorted_contains, stable_sorted, total_preorder};
use crate::query::call_graph::{call_graph, call_relation, uses_of};
use crate::query::dead_code::{
    any_begins, by_likelihood, dead_code_in, dead_entry, has_main, is_main_under, is_unused_method, is_unused_type,
    last_dot, parent_name, unused_methods_in, unused_types_in, uses_in, verdict_on_method, verdict_on_type,
    DeadCodeEntryView,
};
use crate::query::explain::{call_names, explained};
use crate::query::resolve::{cell_with, entity_with, name_of, resolved};
use crate::query::search::{is_match, match_order, matches_in, searched, SearchMatchView};
use crate::query::types::CallRelationView;
use crate::seqs::lemma_push_contains;
use crate::text::{has, is_upper, lemma_find, lemma_lex_total, lemma_lex_transitive, lex_le, lowercase};
use crate::text_laws::holds;
use crate::text_map::lookup;
use crate::text_set::including;

verus! {

/// The first name of a cell.
pub proof fn law_name_of(index: Seq<(Seq<char>, Seq<char>)>, id: Seq<char>)
    ensures
        match name_of(index, id) {
            Some(name) => exists|i: int|
                0 <= i < index.len() && #[trigger] index[i] == (name, id) && forall|j: int|
                    0 <= j < i ==> (#[trigger] index[j]).1 != id,
            None => forall|j: int| 0 <= j < index.len() ==> (#[trigger] index[j]).1 != id,
        },
    decreases index.len(),
{
    if index.len() > 0 {
        let front = index.drop_last();
        law_name_of(front, id);
        match name_of(front, id) {
            Some(name) => {
                let i = choose|i: int|
                    0 <= i < front.len() && #[trigger] front[i] == (name, id) && forall|j: int|
                        0 <= j < i ==> (#[trigger] front[j]).1 != id;
                assert(index[i] == (name, id));
                assert forall|j: int| 0 <= j < i implies (#[trigger] index[j]).1 != id by {
                    assert(front[j].1 != id);
                }
            },
            None => {
                let n = index.len() - 1;
                assert forall|j: int| 0 <= j < n implies (#[trigger] index[j]).1 != id by {
                    assert(front[j].1 != id);
                }
                if index.last().1 == id {
                    assert(index[n] == (index.last().0, id));
                }
            },
        }
    }
}

/// The first cell that has an identifier.
pub proof fn law_cell_with(cells: Seq<CellView>, id: Seq<char>)
    ensures
        match cell_with(cells, id) {
            Some(i) => 0 <= i < cells.len() && cells[i].id == id && forall|j: int|
                0 <= j < i ==> (#[trigger] cells[j]).id != id,
            None => forall|j: int| 0 <= j < cells.len() ==> (#[trigger] cells[j]).id != id,
        },
    decreases cells.len(),
{
    if cells.len() > 0 {
        let front = cells.drop_last();
        law_cell_with(front, id);
        assert forall|j: int| 0 <= j < front.len() implies #[trigger] cells[j] == front[j] by {}
    }
}

/// The first entity of a cell.
pub proof fn law_entity_with(entities: Seq<EntityView>, id: Seq<char>)
    ensures
        match entity_with(entities, id) {
            Some(i) => 0 <= i < entities.len() && entities[i].cell_id == id && forall|j: int|
                0 <= j < i ==> (#[trigger] entities[j]).cell_id != id,
            None => forall|j: int| 0 <= j < entities.len() ==> (#[trigger] entities[j]).cell_id != id,
        },
    decreases entities.len(),
{
    if entities.len() > 0 {
        let front = entities.drop_last();
        law_entity_with(front, id);
        assert forall|j: int| 0 <= j < front.len() implies #[trigger] entities[j] == front[j] by {}
    }
}

/// A relation by which its end is used.
pub open spec fn uses_end(l: LinkView) -> bool {
    l.relation == "java.calls"@ || l.relation == "java.constructs"@ || l.relation == "java.field_access"@
}

/// What is said of a use: the name and the label at the far end, the relation,
/// how sure it is, and where it stands.
pub open spec fn is_use_of(space: SpaceView, l: LinkView, far: Seq<char>, r: CallRelationView) -> bool {
    &&& r.relation_type == l.relation
    &&& match name_of(space.index, far) {
        Some(name) => r.target == name,
        None => r.target.len() == 0,
    }
    &&& match cell_with(space.cells, far) {
        Some(i) => space.cells[i].label == Some(r.target_label) || space.cells[i].label is None
            && r.target_label.len() == 0,
        None => r.target_label.len() == 0,
    }
    &&& match l.provenance {
        Some(p) => r.confidence == p.confidence && (r.witness matches Some(w) && w.derivation_source == "tree-sitter"@
            && (p.title == Some(w.file) || p.title is None && w.file.len() == 0)),
        None => r.witness is None,
    }
}

/// The list says of each of the relations what is to be said of it, in order.
pub open spec fn says_of(
    space: SpaceView,
    uses: Seq<LinkView>,
    incoming: bool,
    list: Seq<CallRelationView>,
) -> bool {
    &&& list.len() == uses.len()
    &&& forall|i: int|
        0 <= i < uses.len() ==> is_use_of(
            space,
            #[trigger] uses[i],
            if incoming {
                uses[i].from
            } else {
                uses[i].to
            },
            list[i],
        )
}

proof fn lemma_uses(
    space: SpaceView,
    links: Seq<LinkView>,
    cell_id: Seq<char>,
    incoming: bool,
    p: spec_fn(LinkView) -> bool,
)
    requires
        forall|l: LinkView| #[trigger]
            p(l) == (uses_end(l) && cell_id == if incoming {
                l.to
            } else {
                l.from
            }),
    ensures
        says_of(space, links.filter(p), incoming, uses_of(space, links, cell_id, incoming)),
    decreases links.len(),
{
    reveal(Seq::filter);
    if links.len() > 0 {
        let front = links.drop_last();
        lemma_uses(space, front, cell_id, incoming, p);
        let l = links.last();
        let uses = links.filter(p);
        let list = uses_of(space, links, cell_id, incoming);
        let far = if incoming {
            l.from
        } else {
            l.to
        };
        if p(l) {
            let r = call_relation(space, l, incoming);
            law_cell_with(space.cells, far);
            assert(is_use_of(space, l, far, r));
            assert forall|i: int| 0 <= i < uses.len() implies is_use_of(
                space,
                #[trigger] uses[i],
                if incoming {
                    uses[i].from
                } else {
                    uses[i].to
                },
                list[i],
            ) by {
                if i < front.filter(p).len() {
                    assert(uses[i] == front.filter(p)[i]);
                }
            }
        }
    }
}

/// The callers of a symbol are the near ends of the relations that call,
/// construct or access it, and the callees the far ends of those that it
/// starts: one for each relation, in order.
pub proof fn law_call_graph(space: SpaceView, symbol: Seq<char>, fqn: Seq<char>, cell_id: Seq<char>)
    requires
        resolved(space.index, symbol) == Some((fqn, cell_id)),
    ensures
        call_graph(space, symbol, true) matches Ok(g) && g.symbol == fqn && says_of(
            space,
            space.links.filter(|l: LinkView| uses_end(l) && cell_id == l.to),
            true,
            g.relations,
        ),
        call_graph(space, symbol, false) matches Ok(g) && g.symbol == fqn && says_of(
            space,
            space.links.filter(|l: LinkView| uses_end(l) && cell_id == l.from),
            false,
            g.relations,
        ),
{
    lemma_uses(space, space.links, cell_id, true, |l: LinkView| uses_end(l) && cell_id == l.to);
    lemma_uses(space, space.links, cell_id, false, |l: LinkView| uses_end(l) && cell_id == l.from);
}

/// A call or a construction, with the cell at its near end, of a named cell.
pub open spec fn names_call(
    index: Seq<(Seq<char>, Seq<char>)>,
    l: LinkView,
    cell_id: Seq<char>,
    incoming: bool,
    name: Seq<char>,
) -> bool {
    &&& l.relation == "java.calls"@ || l.relation == "java.constructs"@
    &&& incoming ==> l.to == cell_id && name_of(index, l.from) == Some(name)
    &&& !incoming ==> l.from == cell_id && name_of(index, l.to) == Some(name)
}

proof fn lemma_call_names(
    index: Seq<(Seq<char>, Seq<char>)>,
    links: Seq<LinkView>,
    cell_id: Seq<char>,
    incoming: bool,
    name: Seq<char>,
)
    ensures
        call_names(index, links, cell_id, incoming).contains(name) <==> exists|i: int|
            0 <= i < links.len() && names_call(index, #[trigger] links[i], cell_id, incoming, name),
    decreases links.len(),
{
    if links.len() > 0 {
        let front = links.drop_last();
        lemma_call_names(index, front, cell_id, incoming, name);
        let before = call_names(index, front, cell_id, incoming);
        let all = call_names(index, links, cell_id, incoming);
        if all.len() > before.len() {
            lemma_push_contains(before, all.last());
            assert(all =~= before.push(all.last()));
        }
        if before.contains(name) {
            let i = choose|i: int|
                0 <= i < front.len() && names_call(index, #[trigger] front[i], cell_id, incoming, name);
            assert(names_call(index, links[i], cell_id, incoming, name));
        }
        if names_call(index, links.last(), cell_id, incoming, name) {
            assert(names_call(index, links[links.len() - 1], cell_id, incoming, name));
            assert(all == before.push(name));
        }
        if exists|i: int| 0 <= i < links.len() && names_call(index, #[trigger] links[i], cell_id, incoming, name) {
            let i = choose|i: int|
                0 <= i < links.len() && names_call(index, #[trigger] links[i], cell_id, incoming, name);
            if i < front.len() {
                assert(names_call(index, front[i], cell_id, incoming, name));
            }
        }
        if all.contains(name) && !before.contains(name) {
            assert(names_call(index, links[links.len() - 1], cell_id, incoming, name));
        }
    }
}

/// A symbol is explained by its cell: its kind and signature, the names that
/// call or construct it, and the names that it calls or constructs.
pub proof fn law_explained_calls(
    space: SpaceView,
    symbol: Seq<char>,
    fqn: Seq<char>,
    cell_id: Seq<char>,
    i: int,
    name: Seq<char>,
)
    requires
        resolved(space.index, symbol) == Some((fqn, cell_id)),
        cell_with(space.cells, cell_id) == Some(i),
    ensures
        explained(space, symbol) matches Ok(x) && {
            &&& x.symbol == fqn
            &&& x.entity_type == space.cells[i].cell_type
            &&& space.cells[i].label matches Some(l) ==> x.signature == l
            &&& x.callers.contains(name) <==> exists|k: int|
                0 <= k < space.links.len() && names_call(space.index, #[trigger] space.links[k], cell_id, true, name)
            &&& x.callees.contains(name) <==> exists|k: int|
                0 <= k < space.links.len() && names_call(space.index, #[trigger] space.links[k], cell_id, false, name)
        },
{
    lemma_call_names(space.index, space.links, cell_id, true, name);
    lemma_call_names(space.index, space.links, cell_id, false, name);
}

/// What the annotation of a cell says is in its explanation, each part where it
/// belongs and with the confidence of the cell.
pub proof fn law_explained_annotation(
    space: SpaceView,
    symbol: Seq<char>,
    fqn: Seq<char>,
    cell_id: Seq<char>,
    i: int,
    k: int,
)
    requires
        resolved(space.index, symbol) == Some((fqn, cell_id)),
        cell_with(space.cells, cell_id) == Some(i),
        lookup(space.annotations, cell_id) is Some,
        space.cells[i].provenance is Some,
    ensures
        ({
            let a = lookup(space.annotations, cell_id)->0;
            let sure = space.cells[i].provenance->0.confidence;
            explained(space, symbol) matches Ok(x) && {
                &&& a.intent matches Some(v) ==> (x.intent matches Some(w) && w.value == v && w.confidence == sure
                    && w.source == "corroboration"@)
                &&& a.intent is None ==> x.intent is None
                &&& a.behavior matches Some(v) ==> (x.behavior matches Some(w) && w.value == v && w.confidence == sure
                    && w.source == "corroboration"@)
                &&& a.behavior is None ==> x.behavior is None
                &&& a.error_behavior matches Some(v) ==> (x.error_behavior matches Some(w) && w.value == v
                    && w.confidence == sure && w.source == "llm"@)
                &&& a.error_behavior is None ==> x.error_behavior is None
                &&& x.preconditions.len() == a.preconditions.len()
                &&& x.postconditions.len() == a.postconditions.len()
                &&& x.side_effects.len() == a.side_effects.len()
                &&& 0 <= k < a.preconditions.len() ==> x.preconditions[k].value == a.preconditions[k]
                    && x.preconditions[k].confidence == sure && x.preconditions[k].source == "llm"@
                &&& 0 <= k < a.postconditions.len() ==> x.postconditions[k].value == a.postconditions[k]
                    && x.postconditions[k].confidence == sure && x.postconditions[k].source == "llm"@
                &&& 0 <= k < a.side_effects.len() ==> x.side_effects[k].value == a.side_effects[k]
                    && x.side_effects[k].confidence == sure && x.side_effects[k].source == "llm"@
            }
        }),
{
}

/// The text holds the pattern when letters of both cases count as one.
pub open spec fn holds_loosely(text: Seq<char>, pattern: Seq<char>) -> bool {
    holds(lowercase(text), pattern)
}

/// An entity that is looked for: its name or its label holds the query.
pub open spec fn is_wanted(e: EntityView, query: Seq<char>) -> bool {
    holds_loosely(e.fqn, query) || holds_loosely(e.label, query)
}

/// What is said of a match.
pub open spec fn tells_of(e: EntityView, m: SearchMatchView) -> bool {
    m.fqn == e.fqn && m.label == e.label && m.file == e.witness.file && m.line == e.witness.start_line
}

proof fn lemma_matches(entities: Seq<EntityView>, query: Seq<char>, filter: Option<Seq<char>>, m: SearchMatchView)
    ensures
        matches_in(entities, query, filter).contains(m) ==> exists|i: int|
            0 <= i < entities.len() && is_wanted(#[trigger] entities[i], query) && tells_of(entities[i], m),
        filter is None ==> forall|i: int|
            0 <= i < entities.len() && is_wanted(#[trigger] entities[i], query) ==> exists|x: SearchMatchView|
                #[trigger] matches_in(entities, query, filter).contains(x) && tells_of(entities[i], x),
    decreases entities.len(),
{
    let all = matches_in(entities, query, filter);
    if entities.len() > 0 {
        let front = entities.drop_last();
        let e = entities.last();
        lemma_matches(front, query, filter, m);
        lemma_find(lowercase(e.fqn), query, 0);
        lemma_find(lowercase(e.label), query, 0);
        let before = matches_in(front, query, filter);
        if is_match(e, query, filter) {
            lemma_push_contains(before, all.last());
            assert(all =~= before.push(all.last()));
            assert(all.contains(all.last()));
            assert(tells_of(e, all.last()));
            assert(is_wanted(entities[entities.len() - 1], query));
        }
        if before.contains(m) {
            let i = choose|i: int|
                0 <= i < front.len() && is_wanted(#[trigger] front[i], query) && tells_of(front[i], m);
            assert(is_wanted(entities[i], query) && tells_of(entities[i], m));
        }
        if filter is None {
            assert forall|i: int| 0 <= i < entities.len() && is_wanted(#[trigger] entities[i], query) implies exists|
                x: SearchMatchView,
            | #[trigger] all.contains(x) && tells_of(entities[i], x) by {
                if i < front.len() {
                    assert(is_wanted(front[i], query));
                    let x = choose|x: SearchMatchView| #[trigger] before.contains(x) && tells_of(front[i], x);
                    assert(all.contains(x) && tells_of(entities[i], x));
                } else {
                    assert(all.contains(all.last()) && tells_of(entities[i], all.last()));
                }
            }
        }
    }
}

/// The name or the label starts with the query.
pub open spec fn starts_loosely(m: SearchMatchView, query: Seq<char>) -> bool {
    begins(lowercase(m.fqn), query) || begins(lowercase(m.label), query)
}

proof fn lemma_match_order(query: Seq<char>)
    ensures
        total_preorder(match_order(query)),
{
    let le = match_order(query);
    assert forall|a: SearchMatchView, b: SearchMatchView| #[trigger] le(a, b) || le(b, a) by {
        lemma_lex_total(a.fqn, b.fqn);
    }
    assert forall|a: SearchMatchView, b: SearchMatchView, c: SearchMatchView| #[trigger]
        le(a, b) && #[trigger] le(b, c) implies le(a, c) by {
        if lex_le(a.fqn, b.fqn) && lex_le(b.fqn, c.fqn) {
            lemma_lex_transitive(a.fqn, b.fqn, c.fqn);
        }
    }
}

/// A search answers with entities whose name or label holds the query, those
/// that start with it before the others, and each part in the order of the
/// names; without a filter and below the limit it answers with all of them.
pub proof fn law_search(
    space: SpaceView,
    query: Seq<char>,
    query_lower: Seq<char>,
    filter: Option<Seq<char>>,
    limit: usize,
    i: int,
    j: int,
    k: int,
)
    requires
        0 <= i < j < searched(space, query, query_lower, filter, limit).matches.len(),
        0 <= k < space.entities.len(),
    ensures
        ({
            let r = searched(space, query, query_lower, filter, limit);
            let a = r.matches[i];
            let b = r.matches[j];
            &&& r.matches.len() <= limit
            &&& exists|n: int|
                0 <= n < space.entities.len() && is_wanted(#[trigger] space.entities[n], query_lower) && tells_of(
                    space.entities[n],
                    a,
                )
            &&& starts_loosely(b, query_lower) ==> starts_loosely(a, query_lower)
            &&& starts_loosely(a, query_lower) == starts_loosely(b, query_lower) ==> lex_le(a.fqn, b.fqn)
            &&& filter is None && !r.truncated && is_wanted(space.entities[k], query_lower) ==> exists|
                x: SearchMatchView,
            | #[trigger] r.matches.contains(x) && tells_of(space.entities[k], x)
        }),
{
    let r = searched(space, query, query_lower, filter, limit);
    let found = matches_in(space.entities, query_lower, filter);
    let le = match_order(query_lower);
    lemma_match_order(query_lower);
    lemma_stable_sorted(found, le);
    lemma_stable_sorted_contains(found, le);
    let all = stable_sorted(found, le);
    assert(le(all[i], all[j]));
    assert(all.contains(all[i]));
    lemma_matches(space.entities, query_lower, filter, all[i]);
    if filter is None && !r.truncated && is_wanted(space.entities[k], query_lower) {
        let x = choose|x: SearchMatchView| #[trigger] found.contains(x) && tells_of(space.entities[k], x);
        assert(all.contains(x));
        assert(r.matches.contains(x));
    }
}

/// A relation refers to what its end is.
pub open spec fn refers_to(index: Seq<(Seq<char>, Seq<char>)>, l: LinkView, name: Seq<char>) -> bool {
    &&& l.relation == "java.calls"@ || l.relation == "java.constructs"@ || l.relation == "java.field_access"@
    &&& name_of(index, l.to) == Some(name)
}

/// A relation names the type at its end.
pub open spec fn names_type(index: Seq<(Seq<char>, Seq<char>)>, l: LinkView, name: Seq<char>) -> bool {
    &&& l.relation == "java.extends"@ || l.relation == "java.implements"@ || l.relation == "java.imports"@ || l.relation
        == "java.type_reference"@ || l.relation == "java.throws"@ || l.relation == "java.catches"@
    &&& name_of(index, l.to) == Some(name)
}

pub open spec fn is_annotated(index: Seq<(Seq<char>, Seq<char>)>, l: LinkView, name: Seq<char>) -> bool {
    l.relation == "java.annotated_with"@ && name_of(index, l.from) == Some(name)
}

pub open spec fn is_override(index: Seq<(Seq<char>, Seq<char>)>, l: LinkView, name: Seq<char>) -> bool {
    l.relation == "java.overrides"@ && name_of(index, l.from) == Some(name)
}

proof fn lemma_relations_differ()
    ensures
        "java.annotated_with"@ != "java.calls"@,
        "java.annotated_with"@ != "java.constructs"@,
        "java.annotated_with"@ != "java.field_access"@,
        "java.annotated_with"@ != "java.extends"@,
        "java.annotated_with"@ != "java.implements"@,
        "java.annotated_with"@ != "java.imports"@,
        "java.annotated_with"@ != "java.type_reference"@,
        "java.annotated_with"@ != "java.throws"@,
        "java.annotated_with"@ != "java.catches"@,
        "java.annotated_with"@ != "java.overrides"@,
        "java.overrides"@ != "java.calls"@,
        "java.overrides"@ != "java.constructs"@,
        "java.overrides"@ != "java.field_access"@,
        "java.overrides"@ != "java.extends"@,
        "java.overrides"@ != "java.implements"@,
        "java.overrides"@ != "java.imports"@,
        "java.overrides"@ != "java.type_reference"@,
        "java.overrides"@ != "java.throws"@,
        "java.overrides"@ != "java.catches"@,
        "java.calls"@ != "java.catches"@,
        "java.calls"@ != "java.extends"@,
        "java.calls"@ != "java.implements"@,
        "java.calls"@ != "java.imports"@,
        "java.calls"@ != "java.type_reference"@,
        "java.calls"@ != "java.throws"@,
        "java.constructs"@ != "java.catches"@,
        "java.constructs"@ != "java.extends"@,
        "java.constructs"@ != "java.implements"@,
        "java.constructs"@ != "java.imports"@,
        "java.constructs"@ != "java.type_reference"@,
        "java.constructs"@ != "java.throws"@,
        "java.field_access"@ != "java.catches"@,
        "java.field_access"@ != "java.extends"@,
        "java.field_access"@ != "java.implements"@,
        "java.field_access"@ != "java.imports"@,
        "java.field_access"@ != "java.type_reference"@,
        "java.field_access"@ != "java.throws"@,
{
    reveal_strlit("java.annotated_with");
    reveal_strlit("java.overrides");
    reveal_strlit("java.calls");
    reveal_strlit("java.constructs");
    reveal_strlit("java.field_access");
    reveal_strlit("java.extends");
    reveal_strlit("java.implements");
    reveal_strlit("java.imports");
    reveal_strlit("java.type_reference");
    reveal_strlit("java.throws");
    reveal_strlit("java.catches");
    assert("java.annotated_with"@[5] == 'a');
    assert("java.overrides"@[5] == 'o');
    assert("java.calls"@[5] == 'c' && "java.calls"@.len() == 10);
    assert("java.catches"@[5] == 'c' && "java.catches"@.len() == 12 && "java.catches"@[6] == 'a');
    assert("java.constructs"@[5] == 'c' && "java.constructs"@[6] == 'o');
    assert("java.field_access"@[5] == 'f');
    assert("java.extends"@[5] == 'e');
    assert("java.implements"@[5] == 'i');
    assert("java.imports"@[5] == 'i');
    assert("java.type_reference"@[5] == 't');
    assert("java.throws"@[5] == 't');
}

proof fn lemma_including_contains(list: Seq<Seq<char>>, text: Seq<char>, x: Seq<char>)
    ensures
        including(list, text).contains(x) <==> list.contains(x) || x == text,
{
    lemma_push_contains(list, text);
}

/// Some relation does to the name what is asked.
pub open spec fn some_link(
    links: Seq<LinkView>,
    p: spec_fn(LinkView, Seq<char>) -> bool,
    name: Seq<char>,
) -> bool {
    exists|i: int| 0 <= i < links.len() && p(#[trigger] links[i], name)
}

proof fn lemma_some_link(links: Seq<LinkView>, p: spec_fn(LinkView, Seq<char>) -> bool, name: Seq<char>)
    requires
        links.len() > 0,
    ensures
        some_link(links, p, name) <==> some_link(links.drop_last(), p, name) || p(links.last(), name),
{
    let front = links.drop_last();
    if some_link(front, p, name) {
        let i = choose|i: int| 0 <= i < front.len() && p(#[trigger] front[i], name);
        assert(p(links[i], name));
    }
    if p(links.last(), name) {
        assert(p(links[links.len() - 1], name));
    }
    if some_link(links, p, name) {
        let i = choose|i: int| 0 <= i < links.len() && p(#[trigger] links[i], name);
        if i < front.len() {
            assert(p(front[i], name));
        }
    }
}

proof fn lemma_uses_in(index: Seq<(Seq<char>, Seq<char>)>, links: Seq<LinkView>, name: Seq<char>)
    ensures
        uses_in(index, links).referenced.contains(name) <==> some_link(
            links,
            |l: LinkView, n: Seq<char>| refers_to(index, l, n),
            name,
        ),
        uses_in(index, links).type_referenced.contains(name) <==> some_link(
            links,
            |l: LinkView, n: Seq<char>| names_type(index, l, n),
            name,
        ),
        uses_in(index, links).annotated.contains(name) <==> some_link(
            links,
            |l: LinkView, n: Seq<char>| is_annotated(index, l, n),
            name,
        ),
        uses_in(index, links).overriding.contains(name) <==> some_link(
            links,
            |l: LinkView, n: Seq<char>| is_override(index, l, n),
            name,
        ),
    decreases links.len(),
{
    if links.len() > 0 {
        let front = links.drop_last();
        lemma_uses_in(index, front, name);
        lemma_relations_differ();
        let l = links.last();
        let before = uses_in(index, front);
        lemma_some_link(links, |l: LinkView, n: Seq<char>| refers_to(index, l, n), name);
        lemma_some_link(links, |l: LinkView, n: Seq<char>| names_type(index, l, n), name);
        lemma_some_link(links, |l: LinkView, n: Seq<char>| is_annotated(index, l, n), name);
        lemma_some_link(links, |l: LinkView, n: Seq<char>| is_override(index, l, n), name);
        if let Some(to) = name_of(index, l.to) {
            lemma_including_contains(before.referenced, to, name);
            lemma_including_contains(before.type_referenced, to, name);
        }
        if let Some(from) = name_of(index, l.from) {
            lemma_including_contains(before.annotated, from, name);
            lemma_including_contains(before.overriding, from, name);
        }
    }
}

/// A method that nothing refers to: no relation calls, constructs or accesses
/// it, it overrides nothing, and it is not a main method.
pub open spec fn is_dead_method(space: SpaceView, e: EntityView) -> bool {
    &&& e.entity_type == JavaEntityType::Method
    &&& e.label != "main"@
    &&& !some_link(space.links, |l: LinkView, n: Seq<char>| refers_to(space.index, l, n), e.fqn)
    &&& !some_link(space.links, |l: LinkView, n: Seq<char>| is_override(space.index, l, n), e.fqn)
}

/// The name begins an accessor: the prefix and an upper-case letter.
pub open spec fn is_bean(label: Seq<char>, prefix: Seq<char>) -> bool {
    begins(label, prefix) && prefix.len() < label.len() && is_upper(label[prefix.len() as int])
}

/// The line on which an entity starts begins with the word.
pub open spec fn starts_with_word(
    e: EntityView,
    sources: Seq<(Seq<char>, Seq<char>)>,
    word: Seq<char>,
) -> bool {
    lookup(sources, e.witness.file) matches Some(content) && 1 <= e.witness.start_line <= lines(content).len()
        && begins(trimmed_start(lines(content)[e.witness.start_line - 1]), word)
}

/// How sure it is that a method is dead.
pub open spec fn method_doubt(space: SpaceView, e: EntityView, sources: Seq<(Seq<char>, Seq<char>)>) -> Seq<char> {
    let annotated = |l: LinkView, n: Seq<char>| is_annotated(space.index, l, n);
    if some_link(space.links, annotated, e.fqn) || some_link(space.links, annotated, parent_name(e.fqn)) || is_bean(
        e.label,
        "get"@,
    ) || is_bean(e.label, "set"@) || is_bean(e.label, "is"@) {
        "low"@
    } else if starts_with_word(e, sources, "private"@) {
        "high"@
    } else {
        "medium"@
    }
}

/// What is said of dead code.
pub open spec fn tells_dead(e: EntityView, confidence: Seq<char>, x: DeadCodeEntryView) -> bool {
    x.fqn == e.fqn && x.file == e.witness.file && x.line == e.witness.start_line && x.confidence == confidence
}

proof fn lemma_dead_method(space: SpaceView, e: EntityView, sources: Seq<(Seq<char>, Seq<char>)>)
    ensures
        ({
            let uses = uses_in(space.index, space.links);
            &&& is_unused_method(e, uses) == is_dead_method(space, e)
            &&& tells_dead(
                e,
                method_doubt(space, e, sources),
                dead_entry(e, verdict_on_method(e, uses.annotated, sources)),
            )
        }),
{
    lemma_uses_in(space.index, space.links, e.fqn);
    lemma_uses_in(space.index, space.links, parent_name(e.fqn));
}

proof fn lemma_dead_methods(space: SpaceView, entities: Seq<EntityView>, sources: Seq<(Seq<char>, Seq<char>)>)
    ensures
        ({
            let uses = uses_in(space.index, space.links);
            let all = unused_methods_in(entities, uses, sources);
            let dead = entities.filter(|e: EntityView| is_dead_method(space, e));
            &&& all.len() == dead.len()
            &&& forall|i: int|
                0 <= i < dead.len() ==> tells_dead(
                    #[trigger] dead[i],
                    method_doubt(space, dead[i], sources),
                    all[i],
                )
        }),
    decreases entities.len(),
{
    reveal(Seq::filter);
    if entities.len() > 0 {
        lemma_dead_methods(space, entities.drop_last(), sources);
        lemma_dead_method(space, entities.last(), sources);
        let uses = uses_in(space.index, space.links);
        let p = |e: EntityView| is_dead_method(space, e);
        let before = entities.drop_last().filter(p);
        let dead = entities.filter(p);
        let all = unused_methods_in(entities, uses, sources);
        assert forall|i: int| 0 <= i < dead.len() implies tells_dead(
            #[trigger] dead[i],
            method_doubt(space, dead[i], sources),
            all[i],
        ) by {
            if i < before.len() {
                assert(dead[i] == before[i]);
            }
        }
    }
}

/// Every dead method is reported, with how sure that is and where it stands.
pub proof fn law_dead_methods_reported(space: SpaceView, sources: Seq<(Seq<char>, Seq<char>)>, i: int)
    requires
        0 <= i < space.entities.len(),
        is_dead_method(space, space.entities[i]),
    ensures
        exists|k: int|
            0 <= k < dead_code_in(space, sources).unused_methods.len() && tells_dead(
                space.entities[i],
                method_doubt(space, space.entities[i], sources),
                #[trigger] dead_code_in(space, sources).unused_methods[k],
            ),
{
    let uses = uses_in(space.index, space.links);
    let all = unused_methods_in(space.entities, uses, sources);
    let p = |e: EntityView| is_dead_method(space, e);
    let dead = space.entities.filter(p);
    lemma_dead_methods(space, space.entities, sources);
    crate::seqs::lemma_filter_contains(space.entities, p);
    assert(space.entities.contains(space.entities[i]));
    assert(dead.contains(space.entities[i]));
    let j = choose|j: int| 0 <= j < dead.len() && dead[j] == space.entities[i];
    assert(tells_dead(dead[j], method_doubt(space, dead[j], sources), all[j]));
    lemma_stable_sorted_contains(all, by_likelihood());
    let list = dead_code_in(space, sources).unused_methods;
    assert(all.contains(all[j]));
    assert(list.contains(all[j]));
    let k = choose|k: int| 0 <= k < list.len() && list[k] == all[j];
    assert(tells_dead(space.entities[i], method_doubt(space, space.entities[i], sources), list[k]));
}

/// Every method that is reported is dead.
pub proof fn law_reported_methods_dead(space: SpaceView, sources: Seq<(Seq<char>, Seq<char>)>, k: int)
    requires
        0 <= k < dead_code_in(space, sources).unused_methods.len(),
    ensures
        exists|i: int|
            0 <= i < space.entities.len() && is_dead_method(space, #[trigger] space.entities[i]) && tells_dead(
                space.entities[i],
                method_doubt(space, space.entities[i], sources),
                dead_code_in(space, sources).unused_methods[k],
            ),
{
    let uses = uses_in(space.index, space.links);
    let all = unused_methods_in(space.entities, uses, sources);
    let p = |e: EntityView| is_dead_method(space, e);
    let dead = space.entities.filter(p);
    lemma_dead_methods(space, space.entities, sources);
    lemma_stable_sorted_contains(all, by_likelihood());
    let list = dead_code_in(space, sources).unused_methods;
    assert(list.contains(list[k]));
    assert(all.contains(list[k]));
    let j = choose|j: int| 0 <= j < all.len() && all[j] == list[k];
    assert(tells_dead(dead[j], method_doubt(space, dead[j], sources), all[j]));
    crate::seqs::lemma_filter_contains(space.entities, p);
    assert(dead.contains(dead[j]));
    assert(p(dead[j]));
    let i = choose|i: int| 0 <= i < space.entities.len() && space.entities[i] == dead[j];
    assert(is_dead_method(space, space.entities[i]));
}

/// Something in the relations refers to the type or to a part of it.
pub open spec fn is_touched(space: SpaceView, fqn: Seq<char>) -> bool {
    exists|i: int, name: Seq<char>|
        0 <= i < space.links.len() && (name == fqn || begins(name, fqn + "."@)) && #[trigger] is_use_at(
            space,
            space.links[i],
            name,
        )
}

pub open spec fn is_use_at(space: SpaceView, l: LinkView, name: Seq<char>) -> bool {
    refers_to(space.index, l, name) || names_type(space.index, l, name)
}

/// A type that nothing refers to: neither it nor a part of it, and no main
/// method stands in it.
pub open spec fn is_dead_type(space: SpaceView, e: EntityView) -> bool {
    &&& e.entity_type == JavaEntityType::Class || e.entity_type == JavaEntityType::Interface || e.entity_type
        == JavaEntityType::Enum
    &&& !is_touched(space, e.fqn)
    &&& forall|i: int|
        0 <= i < space.entities.len() && (#[trigger] space.entities[i]).entity_type == JavaEntityType::Method
            && space.entities[i].label == "main"@ ==> !begins(space.entities[i].fqn, e.fqn + "."@)
}

proof fn lemma_dead_type(space: SpaceView, e: EntityView)
    ensures
        is_unused_type(e, uses_in(space.index, space.links), space.entities) == is_dead_type(space, e),
{
    let uses = uses_in(space.index, space.links);
    let prefix = e.fqn + "."@;
    let refers = |l: LinkView, n: Seq<char>| refers_to(space.index, l, n);
    let types = |l: LinkView, n: Seq<char>| names_type(space.index, l, n);
    lemma_uses_in(space.index, space.links, e.fqn);
    if is_touched(space, e.fqn) {
        let (i, name) = choose|i: int, name: Seq<char>|
            0 <= i < space.links.len() && (name == e.fqn || begins(name, e.fqn + "."@)) && #[trigger] is_use_at(
                space,
                space.links[i],
                name,
            );
        lemma_uses_in(space.index, space.links, name);
        if refers_to(space.index, space.links[i], name) {
            assert(refers(space.links[i], name));
            assert(some_link(space.links, refers, name));
            let k = choose|k: int| 0 <= k < uses.referenced.len() && uses.referenced[k] == name;
            assert(begins(uses.referenced[k], prefix) || name == e.fqn);
        } else {
            assert(types(space.links[i], name));
            assert(some_link(space.links, types, name));
            let k = choose|k: int| 0 <= k < uses.type_referenced.len() && uses.type_referenced[k] == name;
            assert(begins(uses.type_referenced[k], prefix) || name == e.fqn);
        }
    } else {
        if uses.referenced.contains(e.fqn) {
            let i = choose|i: int| 0 <= i < space.links.len() && refers(#[trigger] space.links[i], e.fqn);
            assert(is_use_at(space, space.links[i], e.fqn));
        }
        if uses.type_referenced.contains(e.fqn) {
            let i = choose|i: int| 0 <= i < space.links.len() && types(#[trigger] space.links[i], e.fqn);
            assert(is_use_at(space, space.links[i], e.fqn));
        }
        if any_begins(uses.referenced, prefix) {
            let k = choose|k: int| 0 <= k < uses.referenced.len() && begins(#[trigger] uses.referenced[k], prefix);
            let name = uses.referenced[k];
            lemma_uses_in(space.index, space.links, name);
            assert(uses.referenced.contains(name));
            let i = choose|i: int| 0 <= i < space.links.len() && refers(#[trigger] space.links[i], name);
            assert(is_use_at(space, space.links[i], name));
        }
        if any_begins(uses.type_referenced, prefix) {
            let k = choose|k: int|
                0 <= k < uses.type_referenced.len() && begins(#[trigger] uses.type_referenced[k], prefix);
            let name = uses.type_referenced[k];
            lemma_uses_in(space.index, space.links, name);
            assert(uses.type_referenced.contains(name));
            let i = choose|i: int| 0 <= i < space.links.len() && types(#[trigger] space.links[i], name);
            assert(is_use_at(space, space.links[i], name));
        }
    }
    if has_main(space.entities, prefix) {
        let i = choose|i: int| 0 <= i < space.entities.len() && is_main_under(#[trigger] space.entities[i], prefix);
        assert(begins(space.entities[i].fqn, prefix));
    } else {
        assert forall|i: int|
            0 <= i < space.entities.len() && (#[trigger] space.entities[i]).entity_type == JavaEntityType::Method
                && space.entities[i].label == "main"@ implies !begins(space.entities[i].fqn, e.fqn + "."@) by {
            assert(!is_main_under(space.entities[i], prefix));
        }
    }
}

/// How sure it is that a type is dead.
pub open spec fn type_doubt(space: SpaceView, e: EntityView) -> Seq<char> {
    if some_link(space.links, |l: LinkView, n: Seq<char>| is_annotated(space.index, l, n), e.fqn) {
        "low"@
    } else {
        "medium"@
    }
}

proof fn lemma_dead_types(space: SpaceView, entities: Seq<EntityView>, x: DeadCodeEntryView)
    ensures
        ({
            let uses = uses_in(space.index, space.links);
            let all = unused_types_in(entities, uses, space.entities);
            &&& all.contains(x) ==> exists|i: int|
                0 <= i < entities.len() && is_dead_type(space, #[trigger] entities[i]) && tells_dead(
                    entities[i],
                    type_doubt(space, entities[i]),
                    x,
                )
            &&& forall|i: int|
                0 <= i < entities.len() && is_dead_type(space, #[trigger] entities[i]) ==> all.contains(
                    dead_entry(entities[i], verdict_on_type(entities[i].fqn, uses.annotated)),
                )
        }),
    decreases entities.len(),
{
    if entities.len() > 0 {
        let uses = uses_in(space.index, space.links);
        let front = entities.drop_last();
        let e = entities.last();
        lemma_dead_types(space, front, x);
        lemma_dead_type(space, e);
        lemma_uses_in(space.index, space.links, e.fqn);
        let before = unused_types_in(front, uses, space.entities);
        let all = unused_types_in(entities, uses, space.entities);
        let item = dead_entry(e, verdict_on_type(e.fqn, uses.annotated));
        lemma_push_contains(before, item);
        if before.contains(x) {
            let i = choose|i: int|
                0 <= i < front.len() && is_dead_type(space, #[trigger] front[i]) && tells_dead(
                    front[i],
                    type_doubt(space, front[i]),
                    x,
                );
            assert(is_dead_type(space, entities[i]));
        }
        if all.contains(x) && !before.contains(x) {
            assert(is_dead_type(space, entities[entities.len() - 1]));
        }
        assert forall|i: int| 0 <= i < entities.len() && is_dead_type(space, #[trigger] entities[i]) implies all.contains(
            dead_entry(entities[i], verdict_on_type(entities[i].fqn, uses.annotated)),
        ) by {
            if i < front.len() {
                assert(is_dead_type(space, front[i]));
            }
        }
    }
}

/// A type is reported as dead exactly when it is.
pub proof fn law_dead_types(space: SpaceView, sources: Seq<(Seq<char>, Seq<char>)>, i: int, k: int)
    requires
        0 <= i < space.entities.len(),
        0 <= k < dead_code_in(space, sources).unused_classes.len(),
    ensures
        is_dead_type(space, space.entities[i]) ==> exists|j: int|
            0 <= j < dead_code_in(space, sources).unused_classes.len() && tells_dead(
                space.entities[i],
                type_doubt(space, space.entities[i]),
                #[trigger] dead_code_in(space, sources).unused_classes[j],
            ),
        exists|j: int|
            0 <= j < space.entities.len() && is_dead_type(space, #[trigger] space.entities[j]) && tells_dead(
                space.entities[j],
                type_doubt(space, space.entities[j]),
                dead_code_in(space, sources).unused_classes[k],
            ),
{
    let uses = uses_in(space.index, space.links);
    let all = unused_types_in(space.entities, uses, space.entities);
    let list = dead_code_in(space, sources).unused_classes;
    lemma_stable_sorted_contains(all, by_likelihood());
    assert(list.contains(list[k]));
    assert(all.contains(list[k]));
    lemma_dead_types(space, space.entities, list[k]);
    let e = space.entities[i];
    if is_dead_type(space, e) {
        lemma_uses_in(space.index, space.links, e.fqn);
        let item = dead_entry(e, verdict_on_type(e.fqn, uses.annotated));
        assert(all.contains(item));
        assert(list.contains(item));
        let j = choose|j: int| 0 <= j < list.len() && list[j] == item;
        assert(tells_dead(e, type_doubt(space, e), list[j]));
    }
}

/// Dead code is listed from the surest entries down, and among equally sure
/// ones in the order of the names.
pub proof fn law_dead_code_order(space: SpaceView, sources: Seq<(Seq<char>, Seq<char>)>, i: int, j: int)
    requires
        0 <= i < j < dead_code_in(space, sources).unused_methods.len(),
    ensures
        ({
            let a = dead_code_in(space, sources).unused_methods[i];
            let b = dead_code_in(space, sources).unused_methods[j];
            &&& b.confidence == "high"@ ==> a.confidence == "high"@
            &&& b.confidence == "medium"@ ==> a.confidence == "high"@ || a.confidence == "medium"@
            &&& a.confidence == b.confidence ==> lex_le(a.fqn, b.fqn)
        }),
{
    let le = by_likelihood();
    assert forall|a: DeadCodeEntryView, b: DeadCodeEntryView| #[trigger] le(a, b) || le(b, a) by {
        lemma_lex_total(a.fqn, b.fqn);
    }
    assert forall|a: DeadCodeEntryView, b: DeadCodeEntryView, c: DeadCodeEntryView| #[trigger]
        le(a, b) && #[trigger] le(b, c) implies le(a, c) by {
        if lex_le(a.fqn, b.fqn) && lex_le(b.fqn, c.fqn) {
            lemma_lex_transitive(a.fqn, b.fqn, c.fqn);
        }
    }
    let uses = uses_in(space.index, space.links);
    let all = unused_methods_in(space.entities, uses, sources);
    lemma_stable_sorted(all, le);
    let list = dead_code_in(space, sources).unused_methods;
    assert(le(list[i], list[j]));
    reveal_strlit("high");
    reveal_strlit("medium");
    assert("high"@.len() == 4 && "medium"@.len() == 6);
}

/// What encloses a name is what stands before its last dot.
pub proof fn law_parent_name(outer: Seq<char>, name: Seq<char>)
    requires
        !name.contains('.'),
    ensures
        parent_name(outer + "."@ + name) == outer,
    decreases name.len(),
{
    reveal_strlit(".");
    let s = outer + "."@ + name;
    lemma_last_dot(outer, name);
    assert(s.take(outer.len() as int) =~= outer);
}

proof fn lemma_last_dot(outer: Seq<char>, name: Seq<char>)
    requires
        !name.contains('.'),
    ensures
        last_dot(outer + "."@ + name) == Some(outer.len() as int),
    decreases name.len(),
{
    reveal_strlit(".");
    let s = outer + "."@ + name;
    if name.len() == 0 {
        assert(s.last() == '.');
        assert(s.len() == outer.len() + 1);
    } else {
        assert(s.last() == name.last());
        assert(name.contains(name.last()));
        assert forall|c: char| name.drop_last().contains(c) implies name.contains(c) by {
            let i = choose|i: int| 0 <= i < name.drop_last().len() && name.drop_last()[i] == c;
            assert(name[i] == c);
        }
        lemma_last_dot(outer, name.drop_last());
        assert(s.drop_last() =~= outer + "."@ + name.drop_last());
    }
}

/// The kind of the entity is the one asked for, by its name or by a part of the
/// type of its cells.
pub open spec fn is_kind(e: EntityView, filter: Seq<char>) -> bool {
    lowercase(entity_type_name(e.entity_type)) == filter || holds(cell_type_of(e.entity_type), filter)
}

proof fn lemma_filtered(entities: Seq<EntityView>, query: Seq<char>, filter: Seq<char>, m: SearchMatchView)
    ensures
        matches_in(entities, query, Some(filter)).contains(m) ==> exists|i: int|
            0 <= i < entities.len() && is_kind(#[trigger] entities[i], filter) && is_wanted(entities[i], query)
                && tells_of(entities[i], m) && m.entity_type == cell_type_of(entities[i].entity_type),
        forall|i: int|
            0 <= i < entities.len() && is_kind(#[trigger] entities[i], filter) && is_wanted(entities[i], query)
                ==> matches_in(entities, query, Some(filter)).contains(crate::query::search::match_of(entities[i])),
    decreases entities.len(),
{
    let all = matches_in(entities, query, Some(filter));
    if entities.len() > 0 {
        let front = entities.drop_last();
        let e = entities.last();
        lemma_filtered(front, query, filter, m);
        lemma_find(lowercase(e.fqn), query, 0);
        lemma_find(lowercase(e.label), query, 0);
        lemma_find(cell_type_of(e.entity_type), filter, 0);
        let before = matches_in(front, query, Some(filter));
        lemma_push_contains(before, crate::query::search::match_of(e));
        assert forall|i: int| 0 <= i < front.len() implies #[trigger] entities[i] == front[i] by {}
        assert(entities[entities.len() - 1] == e);
        if before.contains(m) {
            let i = choose|i: int|
                0 <= i < front.len() && is_kind(#[trigger] front[i], filter) && is_wanted(front[i], query) && tells_of(
                    front[i],
                    m,
                ) && m.entity_type == cell_type_of(front[i].entity_type);
            assert(is_kind(entities[i], filter));
        }
    }
}

/// With a filter, a search answers with the wanted entities of that kind and no
/// others; below the limit with all of them.
pub proof fn law_search_filter(
    space: SpaceView,
    query: Seq<char>,
    query_lower: Seq<char>,
    filter: Seq<char>,
    limit: usize,
    i: int,
    k: int,
)
    ensures
        ({
            let r = searched(space, query, query_lower, Some(filter), limit);
            &&& 0 <= i < r.matches.len() ==> exists|n: int|
                0 <= n < space.entities.len() && is_kind(#[trigger] space.entities[n], filter) && is_wanted(
                    space.entities[n],
                    query_lower,
                ) && tells_of(space.entities[n], r.matches[i])
            &&& !r.truncated && 0 <= k < space.entities.len() && is_kind(space.entities[k], filter) && is_wanted(
                space.entities[k],
                query_lower,
            ) ==> exists|x: SearchMatchView| #[trigger] r.matches.contains(x) && tells_of(space.entities[k], x)
        }),
{
    let r = searched(space, query, query_lower, Some(filter), limit);
    let found = matches_in(space.entities, query_lower, Some(filter));
    let le = match_order(query_lower);
    lemma_stable_sorted(found, le);
    lemma_stable_sorted_contains(found, le);
    let all = stable_sorted(found, le);
    if 0 <= i < r.matches.len() {
        assert(all.contains(all[i]));
        lemma_filtered(space.entities, query_lower, filter, all[i]);
    }
    if !r.truncated && 0 <= k < space.entities.len() && is_kind(space.entities[k], filter) && is_wanted(
        space.entities[k],
        query_lower,
    ) {
        let x = crate::query::search::match_of(space.entities[k]);
        lemma_filtered(space.entities, query_lower, filter, x);
        assert(all.contains(x));
        assert(r.matches.contains(x) && tells_of(space.entities[k], x));
    }
}

} // verus!
