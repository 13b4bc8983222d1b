//! Answers about lifted spaces come with their places in the sources.

use vstd::prelude::*;

use crate::lift::lift_laws::{
    is_witnessed, law_cells_are_witnessed, law_entities_are_placed, law_relations_join_cells,
};
use crate::lift::lifter::{lifted, paths_given, SourceView};
use crate::lines::trimmed;
use crate::model::cell_factory::provenance_of;
use crate::model::graph::LinkView;
use crate::model::space_data::SpaceView;
use crate::model::witness::WitnessView;
use crate::query::call_graph::{call_graph, call_relation, uses_of};
use crate::query::explain::explained;
use crate::query::places::{law_lines_read_back, record_of};
use crate::query::resolve::{cell_with, entity_with, lemma_cell_with, lemma_entity_with, resolved};
use crate::query::types::{CallGraphResultView, ExplainResultView, WitnessRefView};

verus! {

/// Every use comes from a relation.
proof fn lemma_use_of(space: SpaceView, links: Seq<LinkView>, cell_id: Seq<char>, incoming: bool, i: int) -> (k: int)
    requires
        0 <= i < uses_of(space, links, cell_id, incoming).len(),
    ensures
        0 <= k < links.len(),
        uses_of(space, links, cell_id, incoming)[i] == call_relation(space, links[k], incoming),
    decreases links.len(),
{
    let before = uses_of(space, links.drop_last(), cell_id, incoming);
    if i < before.len() {
        lemma_use_of(space, links.drop_last(), cell_id, incoming, i)
    } else {
        links.len() - 1
    }
}

/// Every caller and callee in a lifted space is given with a witness.
pub proof fn law_calls_are_witnessed(
    sources: Seq<SourceView>,
    space: Seq<char>,
    label: Seq<char>,
    known: Seq<(Seq<char>, Seq<char>)>,
    symbol: Seq<char>,
    incoming: bool,
    r: CallGraphResultView,
    i: int,
)
    requires
        call_graph(lifted(sources, space, label, known).space, symbol, incoming) == Ok::<CallGraphResultView, Seq<char>>(
            r,
        ),
        0 <= i < r.relations.len(),
    ensures
        r.relations[i].witness is Some,
{
    let view = lifted(sources, space, label, known).space;
    let (_, cell_id) = resolved(view.index, symbol)->Some_0;
    let k = lemma_use_of(view, view.links, cell_id, incoming, i);
    law_relations_join_cells(sources, space, label, known, k);
}

/// A call is reported with the file and the lines of the witness that its
/// relation was made for, where no record says otherwise.
pub proof fn law_calls_are_placed(space: SpaceView, link: LinkView, incoming: bool, w: WitnessView)
    requires
        link.provenance == Some(provenance_of(w)),
        record_of(space.relations, link.id) is None,
    ensures
        call_relation(space, link, incoming).witness == Some(
            (WitnessRefView {
                file: trimmed(w.file),
                start_line: w.start_line,
                end_line: w.end_line,
                derivation_source: "tree-sitter"@,
            }),
        ),
{
    law_lines_read_back(w);
}

/// Every explanation of a lifted symbol says where the symbol was seen.
pub proof fn law_explanations_are_witnessed(
    sources: Seq<SourceView>,
    space: Seq<char>,
    label: Seq<char>,
    known: Seq<(Seq<char>, Seq<char>)>,
    symbol: Seq<char>,
    r: ExplainResultView,
)
    requires
        paths_given(sources),
        explained(lifted(sources, space, label, known).space, symbol) == Ok::<ExplainResultView, Seq<char>>(r),
    ensures
        r.witnesses.len() == 1,
        r.witnesses[0].derivation_source == "tree-sitter"@,
{
    let view = lifted(sources, space, label, known).space;
    let (_, cell_id) = resolved(view.index, symbol)->Some_0;
    law_cells_are_witnessed(sources, space, label, known);
    lemma_cell_with(view.cells, cell_id);
    lemma_entity_with(view.entities, cell_id);
    let c = cell_with(view.cells, cell_id)->0;
    assert(is_witnessed(view.cells[c], space));
    if let Some(i) = entity_with(view.entities, cell_id) {
        law_entities_are_placed(sources, space, label, known, i);
    }
}

} // verus!
