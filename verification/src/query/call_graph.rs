//! Who calls whom.

use vstd::prelude::*;

use crate::model::graph::{Confidence, Incidence, LinkView, ProvenanceView, HALF_BITS};
use crate::model::space_data::{SpaceData, SpaceView};
use crate::query::places::{lines_at, lines_of_link};
use crate::query::resolve::{
    cell_with, find_cell, fqn_of_cell, name_of, not_found, resolve_symbol, resolved, symbol_not_found,
};
use crate::query::types::{
    CallGraphResult, CallGraphResultView, CallRelation, CallRelationView, WitnessRef, WitnessRefView,
};
use crate::text::same;

verus! {

/// The confidence in what a provenance backs.
pub open spec fn confidence_of(p: Option<ProvenanceView>) -> Confidence {
    match p {
        Some(p) => p.confidence,
        None => Confidence { bits: HALF_BITS },
    }
}

/// A text, or nothing.
pub open spec fn or_empty(s: Option<Seq<char>>) -> Seq<char> {
    match s {
        Some(t) => t,
        None => Seq::empty(),
    }
}

/// A relation along which calls are reported.
pub open spec fn is_use(relation: Seq<char>) -> bool {
    relation == "java.calls"@ || relation == "java.constructs"@ || relation == "java.field_access"@
}

fn names_use(relation: &str) -> (r: bool)
    ensures
        r == is_use(relation@),
{
    same(relation, "java.calls") || same(relation, "java.constructs") || same(relation, "java.field_access")
}

/// The other end of a relation: its source for a caller, its target for a callee.
pub open spec fn other_end(link: LinkView, incoming: bool) -> Seq<char> {
    if incoming {
        link.from
    } else {
        link.to
    }
}

pub open spec fn near_end(link: LinkView, incoming: bool) -> Seq<char> {
    if incoming {
        link.to
    } else {
        link.from
    }
}

/// How one relation is reported, with the lines at which it was seen.
pub open spec fn call_relation(space: SpaceView, link: LinkView, incoming: bool) -> CallRelationView {
    let end = other_end(link, incoming);
    CallRelationView {
        target: or_empty(name_of(space.index, end)),
        target_label: match cell_with(space.cells, end) {
            Some(i) => or_empty(space.cells[i].label),
            None => Seq::empty(),
        },
        relation_type: link.relation,
        confidence: confidence_of(link.provenance),
        witness: match link.provenance {
            Some(p) => {
                let (start_line, end_line) = lines_of_link(space.relations, link.id, p);
                Some(
                    WitnessRefView {
                        file: or_empty(p.title),
                        start_line,
                        end_line,
                        derivation_source: "tree-sitter"@,
                    },
                )
            },
            None => None,
        },
    }
}

/// The uses at one end of a cell, in the order of the relations.
pub open spec fn uses_of(space: SpaceView, links: Seq<LinkView>, cell_id: Seq<char>, incoming: bool) -> Seq<
    CallRelationView,
>
    decreases links.len(),
{
    if links.len() == 0 {
        Seq::empty()
    } else {
        let before = uses_of(space, links.drop_last(), cell_id, incoming);
        let link = links.last();
        if near_end(link, incoming) == cell_id && is_use(link.relation) {
            before.push(call_relation(space, link, incoming))
        } else {
            before
        }
    }
}

/// The answer to a question for callers or callees.
pub open spec fn call_graph(space: SpaceView, symbol: Seq<char>, incoming: bool) -> Result<
    CallGraphResultView,
    Seq<char>,
> {
    match resolved(space.index, symbol) {
        None => Err(not_found(symbol)),
        Some((fqn, cell_id)) => Ok(
            CallGraphResultView { symbol: fqn, relations: uses_of(space, space.links, cell_id, incoming) },
        ),
    }
}

pub fn text_or_empty(s: &Option<String>) -> (r: String)
    ensures
        r@ == or_empty(crate::lines::opt_text(*s)),
{
    match s {
        Some(t) => t.clone(),
        None => {
            let r = String::new();
            assert(r@ =~= Seq::empty());
            r
        },
    }
}

pub fn name_or_empty(space_data: &SpaceData, cell_id: &str) -> (r: String)
    ensures
        r@ == or_empty(name_of(space_data@.index, cell_id@)),
{
    match fqn_of_cell(&space_data.fqn_to_cell_id, cell_id) {
        Some(name) => name.clone(),
        None => {
            let r = String::new();
            assert(r@ =~= Seq::empty());
            r
        },
    }
}

fn label_or_empty(space_data: &SpaceData, cell_id: &str) -> (r: String)
    ensures
        r@ == match cell_with(space_data@.cells, cell_id@) {
            Some(i) => or_empty(space_data@.cells[i].label),
            None => Seq::empty(),
        },
{
    match find_cell(&space_data.cells, cell_id) {
        Some(i) => {
            assert(space_data@.cells[i as int] == space_data.cells@[i as int]@);
            text_or_empty(&space_data.cells[i].label)
        },
        None => {
            let r = String::new();
            assert(r@ =~= Seq::empty());
            r
        },
    }
}

fn relation_at(space_data: &SpaceData, link: &Incidence, incoming: bool) -> (r: CallRelation)
    ensures
        r@ == call_relation(space_data@, link@, incoming),
{
    let end = if incoming {
        link.from_cell_id.as_str()
    } else {
        link.to_cell_id.as_str()
    };
    let (confidence, witness) = match &link.provenance {
        Some(p) => {
            let (start_line, end_line) = lines_at(&space_data.relations, link.id.as_str(), p);
            let found = WitnessRef {
                file: text_or_empty(&p.title),
                start_line,
                end_line,
                derivation_source: "tree-sitter".to_owned(),
            };
            (p.confidence, Some(found))
        },
        None => (Confidence { bits: HALF_BITS }, None),
    };
    CallRelation {
        target: name_or_empty(space_data, end),
        target_label: label_or_empty(space_data, end),
        relation_type: link.relation_type.clone(),
        confidence,
        witness,
    }
}

pub open spec fn graph_result(r: Result<CallGraphResult, String>) -> Result<CallGraphResultView, Seq<char>> {
    match r {
        Ok(g) => Ok(g@),
        Err(e) => Err(e@),
    }
}

fn graph(space_data: &SpaceData, symbol: &str, incoming: bool) -> (r: Result<CallGraphResult, String>)
    ensures
        graph_result(r) == call_graph(space_data@, symbol@, incoming),
{
    let (fqn, cell_id) = match resolve_symbol(space_data, symbol) {
        None => {
            return Err(symbol_not_found(symbol));
        },
        Some(found) => found,
    };
    let ghost space = space_data@;
    let mut relations: Vec<CallRelation> = Vec::new();
    let mut i: usize = 0;
    assert(relations@.map_values(|x: CallRelation| x@) =~= uses_of(space, space.links.take(0), cell_id@, incoming));
    while i < space_data.incidences.len()
        invariant
            i <= space_data.incidences@.len(),
            space == space_data@,
            relations@.map_values(|x: CallRelation| x@) == uses_of(
                space,
                space.links.take(i as int),
                cell_id@,
                incoming,
            ),
        decreases space_data.incidences.len() - i,
    {
        let link = &space_data.incidences[i];
        assert(space.links[i as int] == link@);
        assert(space.links.take(i + 1).drop_last() =~= space.links.take(i as int));
        let near = if incoming {
            link.to_cell_id.as_str()
        } else {
            link.from_cell_id.as_str()
        };
        if same(near, cell_id) && names_use(link.relation_type.as_str()) {
            let relation = relation_at(space_data, link, incoming);
            let ghost before = relations@;
            relations.push(relation);
            assert(relations@.map_values(|x: CallRelation| x@) =~= before.map_values(|x: CallRelation| x@).push(
                relation@,
            ));
        }
        i = i + 1;
    }
    assert(space.links.take(i as int) =~= space.links);
    Ok(CallGraphResult { symbol: fqn.to_owned(), relations })
}

pub fn callers(space_data: &SpaceData, symbol: &str) -> (r: Result<CallGraphResult, String>)
    ensures
        graph_result(r) == call_graph(space_data@, symbol@, true),
{
    graph(space_data, symbol, true)
}

pub fn callees(space_data: &SpaceData, symbol: &str) -> (r: Result<CallGraphResult, String>)
    ensures
        graph_result(r) == call_graph(space_data@, symbol@, false),
{
    graph(space_data, symbol, false)
}

proof fn lemma_use_reported(space: SpaceView, links: Seq<LinkView>, k: int, incoming: bool)
    requires
        0 <= k < links.len(),
        is_use(links[k].relation),
    ensures
        uses_of(space, links, near_end(links[k], incoming), incoming).contains(
            call_relation(space, links[k], incoming),
        ),
    decreases links.len(),
{
    let near = near_end(links[k], incoming);
    let all = uses_of(space, links, near, incoming);
    let before = uses_of(space, links.drop_last(), near, incoming);
    if k == links.len() - 1 {
        assert(all[before.len() as int] == call_relation(space, links[k], incoming));
    } else {
        lemma_use_reported(space, links.drop_last(), k, incoming);
        let i = choose|i: int| 0 <= i < before.len() && before[i] == call_relation(space, links[k], incoming);
        assert(all[i] == before[i]);
    }
}

/// Every call, construction or field access is reported twice: among the
/// callees of where it starts and among the callers of where it leads.
pub proof fn law_use_reported_at_both_ends(space: SpaceView, k: int)
    requires
        0 <= k < space.links.len(),
        is_use(space.links[k].relation),
    ensures
        uses_of(space, space.links, space.links[k].from, false).contains(call_relation(space, space.links[k], false)),
        uses_of(space, space.links, space.links[k].to, true).contains(call_relation(space, space.links[k], true)),
{
    lemma_use_reported(space, space.links, k, false);
    lemma_use_reported(space, space.links, k, true);
}

} // verus!
