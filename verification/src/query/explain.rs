//! What is known of one symbol.

use vstd::prelude::*;

use crate::lines::opt_text;
use crate::model::graph::{Cell, CellView, Confidence, LinkView, HALF_BITS};
use crate::model::semantic::{AnnotationView, SemanticAnnotation};
use crate::model::space_data::{
    annotations_view, lemma_view_position, EntityView, SpaceData, SpaceView,
};
use crate::query::call_graph::{confidence_of, near_end, or_empty, other_end, text_or_empty};
use crate::query::places::{lines_named, named_lines};
use crate::query::resolve::{
    cell_with, entity_with, find_cell, find_entity, fqn_of_cell, name_of, not_found, resolve_symbol, resolved,
    symbol_not_found,
};
use crate::query::types::{
    ConfidenceWrapped, ExplainResult, ExplainResultView, WitnessRef, WitnessRefView, WrappedView,
};
use crate::text::{same, texts};
use crate::text_map::{lookup, with_entry};

verus! {

/// A relation that is a call or a construction.
pub open spec fn is_call(relation: Seq<char>) -> bool {
    relation == "java.calls"@ || relation == "java.constructs"@
}

pub fn names_call(relation: &str) -> (r: bool)
    ensures
        r == is_call(relation@),
{
    same(relation, "java.calls") || same(relation, "java.constructs")
}

/// The names at the other ends of the calls at a cell, in the order of the
/// relations; ends without a name are left out.
pub open spec fn call_names(
    index: Seq<(Seq<char>, Seq<char>)>,
    links: Seq<LinkView>,
    cell_id: Seq<char>,
    incoming: bool,
) -> Seq<Seq<char>>
    decreases links.len(),
{
    if links.len() == 0 {
        Seq::empty()
    } else {
        let before = call_names(index, links.drop_last(), cell_id, incoming);
        let link = links.last();
        if near_end(link, incoming) == cell_id && is_call(link.relation) {
            match name_of(index, other_end(link, incoming)) {
                Some(name) => before.push(name),
                None => before,
            }
        } else {
            before
        }
    }
}

pub fn names_of_calls(space_data: &SpaceData, cell_id: &str, incoming: bool) -> (r: Vec<String>)
    ensures
        texts(r@) == call_names(space_data@.index, space_data@.links, cell_id@, incoming),
{
    let ghost space = space_data@;
    let mut r: Vec<String> = Vec::new();
    let mut i: usize = 0;
    assert(texts(r@) =~= call_names(space.index, space.links.take(0), cell_id@, incoming));
    while i < space_data.incidences.len()
        invariant
            i <= space_data.incidences@.len(),
            space == space_data@,
            texts(r@) == call_names(space.index, space.links.take(i as int), cell_id@, incoming),
        decreases space_data.incidences.len() - i,
    {
        let link = &space_data.incidences[i];
        assert(space.links[i as int] == link@);
        assert(space.links.take(i + 1).drop_last() =~= space.links.take(i as int));
        let (near, end) = if incoming {
            (link.to_cell_id.as_str(), link.from_cell_id.as_str())
        } else {
            (link.from_cell_id.as_str(), link.to_cell_id.as_str())
        };
        if same(near, cell_id) && names_call(link.relation_type.as_str()) {
            match fqn_of_cell(&space_data.fqn_to_cell_id, end) {
                Some(name) => {
                    let ghost before = r@;
                    r.push(name.clone());
                    assert(texts(r@) =~= texts(before).push(name@));
                },
                None => {},
            }
        }
        i = i + 1;
    }
    assert(space.links.take(i as int) =~= space.links);
    r
}

/// Where a cell was seen: at its entity's witness, or else in the file and at
/// the lines that its provenance names.
pub open spec fn sightings(entity: Option<EntityView>, cell: CellView) -> Seq<WitnessRefView> {
    match entity {
        Some(e) => if e.witness.file.len() == 0 {
            Seq::empty()
        } else {
            seq![
                WitnessRefView {
                    file: e.witness.file,
                    start_line: e.witness.start_line,
                    end_line: e.witness.end_line,
                    derivation_source: "tree-sitter"@,
                },
            ]
        },
        None => match cell.provenance {
            Some(p) => if p.uri is Some {
                seq![
                    WitnessRefView {
                        file: or_empty(p.title),
                        start_line: named_lines(p).0,
                        end_line: named_lines(p).1,
                        derivation_source: "tree-sitter"@,
                    },
                ]
            } else {
                Seq::empty()
            },
            None => Seq::empty(),
        },
    }
}

pub open spec fn wrapped(value: Seq<char>, confidence: Confidence, source: Seq<char>) -> WrappedView {
    WrappedView { value, confidence, source }
}

pub open spec fn opt_wrapped(value: Option<Seq<char>>, confidence: Confidence, source: Seq<char>) -> Option<
    WrappedView,
> {
    match value {
        Some(v) => Some(wrapped(v, confidence, source)),
        None => None,
    }
}

pub open spec fn all_wrapped(values: Seq<Seq<char>>, confidence: Confidence, source: Seq<char>) -> Seq<WrappedView> {
    values.map_values(|v: Seq<char>| wrapped(v, confidence, source))
}

/// The annotation of a cell; an empty one when there is none.
pub open spec fn annotation_of(space: SpaceView, cell_id: Seq<char>) -> AnnotationView {
    match lookup(space.annotations, cell_id) {
        Some(a) => a,
        None => AnnotationView::empty(),
    }
}

/// The explanation of a resolved symbol.
pub open spec fn explanation(space: SpaceView, fqn: Seq<char>, cell_id: Seq<char>, cell: CellView) -> ExplainResultView {
    let a = annotation_of(space, cell_id);
    let confidence = confidence_of(cell.provenance);
    let entity = match entity_with(space.entities, cell_id) {
        Some(i) => Some(space.entities[i]),
        None => None,
    };
    ExplainResultView {
        symbol: fqn,
        entity_type: cell.cell_type,
        signature: or_empty(cell.label),
        intent: opt_wrapped(a.intent, confidence, "corroboration"@),
        behavior: opt_wrapped(a.behavior, confidence, "corroboration"@),
        preconditions: all_wrapped(a.preconditions, confidence, "llm"@),
        postconditions: all_wrapped(a.postconditions, confidence, "llm"@),
        side_effects: all_wrapped(a.side_effects, confidence, "llm"@),
        error_behavior: opt_wrapped(a.error_behavior, confidence, "llm"@),
        witnesses: sightings(entity, cell),
        obstructions: Seq::empty(),
        callers: call_names(space.index, space.links, cell_id, true),
        callees: call_names(space.index, space.links, cell_id, false),
    }
}

/// The answer to a request to explain a symbol.
pub open spec fn explained(space: SpaceView, symbol: Seq<char>) -> Result<ExplainResultView, Seq<char>> {
    match resolved(space.index, symbol) {
        None => Err(not_found(symbol)),
        Some((fqn, cell_id)) => match cell_with(space.cells, cell_id) {
            None => Err("Cell not found: "@ + cell_id),
            Some(i) => Ok(explanation(space, fqn, cell_id, space.cells[i])),
        },
    }
}

pub open spec fn explain_result(r: Result<ExplainResult, String>) -> Result<ExplainResultView, Seq<char>> {
    match r {
        Ok(e) => Ok(e@),
        Err(e) => Err(e@),
    }
}

fn wrap(value: &String, confidence: Confidence, source: &str) -> (r: ConfidenceWrapped<String>)
    ensures
        r@ == wrapped(value@, confidence, source@),
{
    ConfidenceWrapped { value: value.clone(), confidence, source: source.to_owned() }
}

fn wrap_opt(value: &Option<String>, confidence: Confidence, source: &str) -> (r: Option<ConfidenceWrapped<String>>)
    ensures
        match r {
            Some(x) => opt_wrapped(opt_text(*value), confidence, source@) == Some(x@),
            None => opt_wrapped(opt_text(*value), confidence, source@) is None,
        },
{
    match value {
        Some(v) => Some(wrap(v, confidence, source)),
        None => None,
    }
}

fn wrap_all(values: &Vec<String>, confidence: Confidence, source: &str) -> (r: Vec<ConfidenceWrapped<String>>)
    ensures
        r@.map_values(|x: ConfidenceWrapped<String>| x@) == all_wrapped(texts(values@), confidence, source@),
{
    let mut r: Vec<ConfidenceWrapped<String>> = Vec::new();
    let mut i: usize = 0;
    while i < values.len()
        invariant
            i <= values@.len(),
            r@.len() == i,
            forall|k: int| 0 <= k < i ==> (#[trigger] r@[k])@ == wrapped(values@[k]@, confidence, source@),
        decreases values.len() - i,
    {
        r.push(wrap(&values[i], confidence, source));
        i = i + 1;
    }
    assert(r@.map_values(|x: ConfidenceWrapped<String>| x@) =~= all_wrapped(texts(values@), confidence, source@));
    r
}

/// The annotation of a cell, or an empty one.
pub fn annotation_at(space_data: &SpaceData, cell_id: &str) -> (r: SemanticAnnotation)
    ensures
        r@ == annotation_of(space_data@, cell_id@),
{
    let ghost es = space_data.annotations.entries();
    proof {
        let f = |a: SemanticAnnotation| a@;
        lemma_view_position(es, f, cell_id@);
        crate::text_map::lemma_key_position(es, cell_id@);
        assert(annotations_view(space_data.annotations) =~= es.map_values(
            |e: (Seq<char>, SemanticAnnotation)| (e.0, f(e.1)),
        ));
    }
    match space_data.annotations.get(cell_id) {
        Some(a) => a.copied(),
        None => SemanticAnnotation::default(),
    }
}

fn witnesses_of(space_data: &SpaceData, cell_id: &str, cell: &Cell) -> (r: Vec<WitnessRef>)
    ensures
        r@.map_values(|x: WitnessRef| x@) == sightings(
            match entity_with(space_data@.entities, cell_id@) {
                Some(i) => Some(space_data@.entities[i]),
                None => None,
            },
            cell@,
        ),
{
    let mut r: Vec<WitnessRef> = Vec::new();
    let ghost mut expected: Seq<WitnessRefView> = Seq::empty();
    match find_entity(&space_data.entities, cell_id) {
        Some(i) => {
            let w = &space_data.entities[i].witness;
            assert(space_data@.entities[i as int] == space_data.entities@[i as int]@);
            if !w.file.as_str().is_empty() {
                let found = WitnessRef {
                    file: w.file.clone(),
                    start_line: w.start_line,
                    end_line: w.end_line,
                    derivation_source: "tree-sitter".to_owned(),
                };
                proof {
                    expected = seq![found@];
                }
                r.push(found);
            }
        },
        None => match &cell.provenance {
            Some(p) => {
                if p.uri.is_some() {
                    let (start_line, end_line) = lines_named(p);
                    let found = WitnessRef {
                        file: text_or_empty(&p.title),
                        start_line,
                        end_line,
                        derivation_source: "tree-sitter".to_owned(),
                    };
                    proof {
                        expected = seq![found@];
                    }
                    r.push(found);
                }
            },
            None => {},
        },
    }
    assert(r@.map_values(|x: WitnessRef| x@) =~= expected);
    r
}

pub fn explain(space_data: &SpaceData, symbol: &str) -> (r: Result<ExplainResult, String>)
    ensures
        explain_result(r) == explained(space_data@, symbol@),
{
    let (fqn, cell_id) = match resolve_symbol(space_data, symbol) {
        None => {
            return Err(symbol_not_found(symbol));
        },
        Some(found) => found,
    };
    let cell = match find_cell(&space_data.cells, cell_id) {
        None => {
            let mut reason = "Cell not found: ".to_owned();
            reason.append(cell_id);
            return Err(reason);
        },
        Some(i) => {
            assert(space_data@.cells[i as int] == space_data.cells@[i as int]@);
            &space_data.cells[i]
        },
    };
    let a = annotation_at(space_data, cell_id);
    let confidence = match &cell.provenance {
        Some(p) => p.confidence,
        None => Confidence { bits: HALF_BITS },
    };
    let obstructions: Vec<String> = Vec::new();
    assert(texts(obstructions@) =~= Seq::empty());
    Ok(
        ExplainResult {
            symbol: fqn.to_owned(),
            entity_type: cell.cell_type.clone(),
            signature: text_or_empty(&cell.label),
            intent: wrap_opt(&a.intent, confidence, "corroboration"),
            behavior: wrap_opt(&a.behavior, confidence, "corroboration"),
            preconditions: wrap_all(&a.preconditions, confidence, "llm"),
            postconditions: wrap_all(&a.postconditions, confidence, "llm"),
            side_effects: wrap_all(&a.side_effects, confidence, "llm"),
            error_behavior: wrap_opt(&a.error_behavior, confidence, "llm"),
            witnesses: witnesses_of(space_data, cell_id, cell),
            obstructions,
            callers: names_of_calls(space_data, cell_id, true),
            callees: names_of_calls(space_data, cell_id, false),
        },
    )
}

/// The space with one more annotation.
pub open spec fn annotated(space: SpaceView, cell_id: Seq<char>, annotation: AnnotationView) -> SpaceView {
    SpaceView { annotations: with_entry(space.annotations, cell_id, annotation), ..space }
}

/// What was annotated is what is explained: an explanation after an
/// annotation of the symbol's cell carries the annotation's content and
/// otherwise says what it said before.
pub proof fn law_annotation_is_explained(
    space: SpaceView,
    symbol: Seq<char>,
    annotation: AnnotationView,
    fqn: Seq<char>,
    cell_id: Seq<char>,
)
    requires
        resolved(space.index, symbol) == Some((fqn, cell_id)),
        cell_with(space.cells, cell_id) is Some,
    ensures
        explained(annotated(space, cell_id, annotation), symbol) matches Ok(after) && explained(space, symbol) matches Ok(
            before,
        ) && {
            let confidence = confidence_of(space.cells[cell_with(space.cells, cell_id)->0].provenance);
            after == (ExplainResultView {
                intent: opt_wrapped(annotation.intent, confidence, "corroboration"@),
                behavior: opt_wrapped(annotation.behavior, confidence, "corroboration"@),
                preconditions: all_wrapped(annotation.preconditions, confidence, "llm"@),
                postconditions: all_wrapped(annotation.postconditions, confidence, "llm"@),
                side_effects: all_wrapped(annotation.side_effects, confidence, "llm"@),
                error_behavior: opt_wrapped(annotation.error_behavior, confidence, "llm"@),
                ..before
            })
        },
{
    crate::text_map::lemma_with_entry(space.annotations, cell_id, annotation);
}

} // verus!
