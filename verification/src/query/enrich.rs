//! What a language model needs to annotate an entity.

use vstd::prelude::*;

use crate::lines::{char_lists, lines, lines_of, opt_text};
use crate::model::entity::{cell_type_of, JavaEntityType};
use crate::model::graph::{Incidence, LinkView};
use crate::model::space_data::{entry_of, index_view, EntityView, SpaceData, SpaceView};
use crate::query::call_graph::{or_empty, text_or_empty};
use crate::query::explain::{call_names, names_of_calls};
use crate::query::resolve::{
    cell_with, entity_with, find_cell, find_entity, fqn_of_cell, name_of, not_found, resolve_symbol, resolved,
    symbol_not_found,
};
use crate::query::unknowns::{in_scope, is_in_scope, opt_lower, opt_str};
use crate::text::{chars_of, join, joined, same, string_of, texts};
use crate::text_map::{lookup, TextMap};

verus! {

#[derive(Debug)]
pub struct EnrichRequest {
    pub symbol: String,
    pub entity_type: String,
    pub signature: String,
    pub source_code: String,
    pub file: String,
    pub start_line: u32,
    pub end_line: u32,
    pub callers: Vec<String>,
    pub callees: Vec<String>,
    pub containing_class: Option<String>,
    pub instructions: String,
}

#[verifier::ext_equal]
pub struct EnrichRequestView {
    pub symbol: Seq<char>,
    pub entity_type: Seq<char>,
    pub signature: Seq<char>,
    pub source_code: Seq<char>,
    pub file: Seq<char>,
    pub start_line: u32,
    pub end_line: u32,
    pub callers: Seq<Seq<char>>,
    pub callees: Seq<Seq<char>>,
    pub containing_class: Option<Seq<char>>,
    pub instructions: Seq<char>,
}

impl View for EnrichRequest {
    type V = EnrichRequestView;

    open spec fn view(&self) -> EnrichRequestView {
        EnrichRequestView {
            symbol: self.symbol@,
            entity_type: self.entity_type@,
            signature: self.signature@,
            source_code: self.source_code@,
            file: self.file@,
            start_line: self.start_line,
            end_line: self.end_line,
            callers: texts(self.callers@),
            callees: texts(self.callees@),
            containing_class: opt_text(self.containing_class),
            instructions: self.instructions@,
        }
    }
}

#[derive(Debug)]
pub struct EnrichBatchRequest {
    pub entities: Vec<EnrichRequest>,
    pub instructions: String,
}

#[verifier::ext_equal]
pub struct EnrichBatchRequestView {
    pub entities: Seq<EnrichRequestView>,
    pub instructions: Seq<char>,
}

impl View for EnrichBatchRequest {
    type V = EnrichBatchRequestView;

    open spec fn view(&self) -> EnrichBatchRequestView {
        EnrichBatchRequestView {
            entities: self.entities@.map_values(|x: EnrichRequest| x@),
            instructions: self.instructions@,
        }
    }
}

/// Lines `start` to `end` of a text, counted from one; none when they are not
/// there.
pub open spec fn text_lines(content: Seq<char>, start: int, end: int) -> Seq<char> {
    let all = lines(content);
    let from = if start > 0 {
        start - 1
    } else {
        0
    };
    let to = if end < all.len() {
        end
    } else {
        all.len() as int
    };
    if from <= to {
        joined(all.subrange(from, to), "\n"@)
    } else {
        Seq::empty()
    }
}

/// The source code of an entity, if its file is at hand.
pub open spec fn code_of(e: EntityView, sources: Seq<(Seq<char>, Seq<char>)>) -> Seq<char> {
    match lookup(sources, e.witness.file) {
        Some(content) => if e.witness.file.len() == 0 {
            Seq::empty()
        } else {
            text_lines(content, e.witness.start_line as int, e.witness.end_line as int)
        },
        None => Seq::empty(),
    }
}

/// The first relation that puts a cell into a container.
pub open spec fn first_container(links: Seq<LinkView>, cell_id: Seq<char>) -> Option<Seq<char>>
    decreases links.len(),
{
    if links.len() == 0 {
        None
    } else {
        match first_container(links.drop_last(), cell_id) {
            Some(to) => Some(to),
            None => if links.last().from == cell_id && links.last().relation == "java.contained_in"@ {
                Some(links.last().to)
            } else {
                None
            },
        }
    }
}

/// The name of what contains a cell.
pub open spec fn container_name(space: SpaceView, cell_id: Seq<char>) -> Option<Seq<char>> {
    match first_container(space.links, cell_id) {
        Some(to) => name_of(space.index, to),
        None => None,
    }
}

pub open spec fn enrich_instructions(entity_type: Seq<char>, fqn: Seq<char>) -> Seq<char> {
    "Analyze this Java "@ + entity_type + " `"@ + fqn
        + "` and provide a structured semantic annotation.\n\nReturn a JSON object with these fields:\n- \"intent\": one-line purpose (string)\n- \"behavior\": step-by-step behavioral description (string)\n- \"preconditions\": array of precondition strings\n- \"postconditions\": array of postcondition strings\n- \"side_effects\": array of side effect strings\n- \"error_behavior\": how errors are handled (string)\n\nFor every claim, cite the specific line number(s) from the source code.\nBe precise and factual — only describe what the code actually does."@
}

/// What is needed to annotate a symbol.
pub open spec fn enriched(space: SpaceView, symbol: Seq<char>, sources: Seq<(Seq<char>, Seq<char>)>) -> Result<
    EnrichRequestView,
    Seq<char>,
> {
    match resolved(space.index, symbol) {
        None => Err(not_found(symbol)),
        Some((fqn, cell_id)) => match (entity_with(space.entities, cell_id), cell_with(space.cells, cell_id)) {
            (None, _) => Err("Entity not found: "@ + cell_id),
            (Some(_), None) => Err("Cell not found: "@ + cell_id),
            (Some(i), Some(k)) => {
                let e = space.entities[i];
                Ok(
                    EnrichRequestView {
                        symbol: fqn,
                        entity_type: cell_type_of(e.entity_type),
                        signature: or_empty(space.cells[k].label),
                        source_code: code_of(e, sources),
                        file: e.witness.file,
                        start_line: e.witness.start_line,
                        end_line: e.witness.end_line,
                        callers: call_names(space.index, space.links, cell_id, true),
                        callees: call_names(space.index, space.links, cell_id, false),
                        containing_class: container_name(space, cell_id),
                        instructions: enrich_instructions(cell_type_of(e.entity_type), fqn),
                    },
                )
            },
        },
    }
}

pub open spec fn enrich_result(r: Result<EnrichRequest, String>) -> Result<EnrichRequestView, Seq<char>> {
    match r {
        Ok(x) => Ok(x@),
        Err(e) => Err(e@),
    }
}

/// An entity that can be annotated, has not been yet, and lies in the scope.
pub open spec fn is_candidate(e: EntityView, space: SpaceView, scope_lower: Option<Seq<char>>) -> bool {
    (e.entity_type == JavaEntityType::Method || e.entity_type == JavaEntityType::Constructor || e.entity_type
        == JavaEntityType::Class || e.entity_type == JavaEntityType::Interface) && lookup(
        space.annotations,
        e.cell_id,
    ) is None && in_scope(e.fqn, scope_lower)
}

/// The names of the first `limit` candidates.
pub open spec fn candidates_in(
    entities: Seq<EntityView>,
    space: SpaceView,
    scope_lower: Option<Seq<char>>,
    limit: usize,
) -> Seq<Seq<char>>
    decreases entities.len(),
{
    if entities.len() == 0 {
        Seq::empty()
    } else {
        let before = candidates_in(entities.drop_last(), space, scope_lower, limit);
        if before.len() < limit && is_candidate(entities.last(), space, scope_lower) {
            before.push(entities.last().fqn)
        } else {
            before
        }
    }
}

/// The requests for names whose source code is at hand.
pub open spec fn requests_for(
    names: Seq<Seq<char>>,
    space: SpaceView,
    sources: Seq<(Seq<char>, Seq<char>)>,
) -> Seq<EnrichRequestView>
    decreases names.len(),
{
    if names.len() == 0 {
        Seq::empty()
    } else {
        let before = requests_for(names.drop_last(), space, sources);
        match enriched(space, names.last(), sources) {
            Ok(request) => if request.source_code.len() > 0 {
                before.push(request)
            } else {
                before
            },
            Err(_) => before,
        }
    }
}

/// What is needed to annotate the next entities of a scope.
pub open spec fn batch_of(
    space: SpaceView,
    scope_lower: Option<Seq<char>>,
    limit: usize,
    sources: Seq<(Seq<char>, Seq<char>)>,
) -> EnrichBatchRequestView {
    EnrichBatchRequestView {
        entities: requests_for(candidates_in(space.entities, space, scope_lower, limit), space, sources),
        instructions: "Analyze each entity and call the `annotate` tool with the results."@,
    }
}

fn extract_lines(content: &str, start: usize, end: usize) -> (r: String)
    ensures
        r@ == text_lines(content@, start as int, end as int),
{
    let ghost all = lines(content@);
    let list = lines_of(chars_of(content).as_slice());
    assert(char_lists(list@) == all);
    assert(char_lists(list@).len() == list@.len());
    let from: usize = if start > 0 {
        start - 1
    } else {
        0
    };
    let to: usize = if end < list.len() {
        end
    } else {
        list.len()
    };
    if from > to {
        return String::new();
    }
    let ghost part = all.subrange(from as int, to as int);
    let mut picked: Vec<String> = Vec::new();
    let mut i: usize = from;
    while i < to
        invariant
            from <= i <= to <= list@.len(),
            all == char_lists(list@),
            part == all.subrange(from as int, to as int),
            texts(picked@) == part.take(i - from),
        decreases to - i,
    {
        let ghost before = texts(picked@);
        let line = string_of(list[i].as_slice());
        let ghost x = line@;
        assert(all[i as int] == list@[i as int]@);
        picked.push(line);
        i = i + 1;
        assert(texts(picked@) =~= before.push(x));
        assert(texts(picked@) =~= part.take(i - from));
    }
    assert(part.take(i - from) =~= part);
    join(picked.as_slice(), "\n")
}

fn find_container(links: &Vec<Incidence>, cell_id: &str) -> (r: Option<usize>)
    ensures
        match r {
            Some(i) => i < links@.len() && first_container(links@.map_values(|i: Incidence| i@), cell_id@) == Some(
                links@[i as int].to_cell_id@,
            ),
            None => first_container(links@.map_values(|i: Incidence| i@), cell_id@) is None,
        },
{
    let ghost all = links@.map_values(|i: Incidence| i@);
    let mut i: usize = 0;
    while i < links.len()
        invariant
            i <= links@.len(),
            all == links@.map_values(|i: Incidence| i@),
            first_container(all.take(i as int), cell_id@) is None,
        decreases links.len() - i,
    {
        assert(all[i as int] == links@[i as int]@);
        assert(all.take(i + 1).drop_last() =~= all.take(i as int));
        if same(links[i].from_cell_id.as_str(), cell_id) && same(links[i].relation_type.as_str(), "java.contained_in") {
            proof {
                lemma_container_prefix(all, cell_id@, i + 1);
            }
            return Some(i);
        }
        i = i + 1;
    }
    assert(all.take(i as int) =~= all);
    None
}

proof fn lemma_container_prefix(links: Seq<LinkView>, cell_id: Seq<char>, i: int)
    requires
        0 <= i <= links.len(),
        first_container(links.take(i), cell_id) is Some,
    ensures
        first_container(links, cell_id) == first_container(links.take(i), cell_id),
    decreases links.len() - i,
{
    if i < links.len() {
        assert(links.take(i + 1).drop_last() =~= links.take(i));
        lemma_container_prefix(links, cell_id, i + 1);
    } else {
        assert(links.take(i) =~= links);
    }
}

/// Gathers what is needed to annotate a symbol.
pub fn enrich(space_data: &SpaceData, symbol: &str, source_files: &TextMap<String>) -> (r: Result<
    EnrichRequest,
    String,
>)
    ensures
        enrich_result(r) == enriched(space_data@, symbol@, index_view(*source_files)),
{
    let ghost space = space_data@;
    let (fqn, cell_id) = match resolve_symbol(space_data, symbol) {
        Some(pair) => pair,
        None => {
            return Err(symbol_not_found(symbol));
        },
    };
    let entity = match find_entity(&space_data.entities, cell_id) {
        Some(i) => {
            assert(space.entities[i as int] == space_data.entities@[i as int]@);
            &space_data.entities[i]
        },
        None => {
            let mut reason = "Entity not found: ".to_owned();
            reason.append(cell_id);
            return Err(reason);
        },
    };
    let cell = match find_cell(&space_data.cells, cell_id) {
        Some(k) => {
            assert(space.cells[k as int] == space_data.cells@[k as int]@);
            &space_data.cells[k]
        },
        None => {
            let mut reason = "Cell not found: ".to_owned();
            reason.append(cell_id);
            return Err(reason);
        },
    };
    let mut source_code = String::new();
    if !entity.witness.file.as_str().is_empty() {
        match entry_of(source_files, entity.witness.file.as_str()) {
            Some(content) => {
                source_code = extract_lines(
                    content.as_str(),
                    entity.witness.start_line as usize,
                    entity.witness.end_line as usize,
                );
            },
            None => {},
        }
    }
    assert(source_code@ =~= code_of(entity@, index_view(*source_files)));
    let containing_class = match find_container(&space_data.incidences, cell_id) {
        Some(i) => match fqn_of_cell(&space_data.fqn_to_cell_id, space_data.incidences[i].to_cell_id.as_str()) {
            Some(name) => Some(name.clone()),
            None => None,
        },
        None => None,
    };
    let entity_type = entity.entity_type.cell_type_str();
    let mut instructions = "Analyze this Java ".to_owned();
    instructions.append(entity_type);
    instructions.append(" `");
    instructions.append(fqn);
    instructions.append(
        "` and provide a structured semantic annotation.\n\nReturn a JSON object with these fields:\n- \"intent\": one-line purpose (string)\n- \"behavior\": step-by-step behavioral description (string)\n- \"preconditions\": array of precondition strings\n- \"postconditions\": array of postcondition strings\n- \"side_effects\": array of side effect strings\n- \"error_behavior\": how errors are handled (string)\n\nFor every claim, cite the specific line number(s) from the source code.\nBe precise and factual — only describe what the code actually does.",
    );
    Ok(
        EnrichRequest {
            symbol: fqn.to_owned(),
            entity_type: entity_type.to_owned(),
            signature: text_or_empty(&cell.label),
            source_code,
            file: entity.witness.file.clone(),
            start_line: entity.witness.start_line,
            end_line: entity.witness.end_line,
            callers: names_of_calls(space_data, cell_id, true),
            callees: names_of_calls(space_data, cell_id, false),
            containing_class,
            instructions,
        },
    )
}

fn annotatable(kind: JavaEntityType) -> (r: bool)
    ensures
        r == (kind == JavaEntityType::Method || kind == JavaEntityType::Constructor || kind == JavaEntityType::Class
            || kind == JavaEntityType::Interface),
{
    match kind {
        JavaEntityType::Method => true,
        JavaEntityType::Constructor => true,
        JavaEntityType::Class => true,
        JavaEntityType::Interface => true,
        _ => false,
    }
}

fn has_annotation(space_data: &SpaceData, cell_id: &str) -> (r: bool)
    ensures
        r == (lookup(space_data@.annotations, cell_id@) is Some),
{
    proof {
        let f = |a: crate::model::semantic::SemanticAnnotation| a@;
        let es = space_data.annotations.entries();
        crate::model::space_data::lemma_view_position(es, f, cell_id@);
        assert(space_data@.annotations =~= es.map_values(
            |e: (Seq<char>, crate::model::semantic::SemanticAnnotation)| (e.0, f(e.1)),
        ));
    }
    space_data.annotations.contains_key(cell_id)
}

fn list_candidates(space_data: &SpaceData, scope_lower: Option<&str>, limit: usize) -> (r: Vec<String>)
    ensures
        texts(r@) == candidates_in(space_data@.entities, space_data@, opt_str(scope_lower), limit),
{
    let ghost space = space_data@;
    let ghost all = space.entities;
    let mut r: Vec<String> = Vec::new();
    let mut i: usize = 0;
    assert(texts(r@) =~= Seq::empty());
    while i < space_data.entities.len()
        invariant
            i <= space_data.entities@.len(),
            space == space_data@,
            all == space.entities,
            texts(r@) == candidates_in(all.take(i as int), space, opt_str(scope_lower), limit),
        decreases space_data.entities.len() - i,
    {
        let e = &space_data.entities[i];
        assert(all[i as int] == e@);
        assert(all.take(i + 1).drop_last() =~= all.take(i as int));
        assert(texts(r@).len() == r@.len());
        if r.len() < limit && annotatable(e.entity_type) && !has_annotation(space_data, e.cell_id.as_str())
            && is_in_scope(e.fqn.as_str(), scope_lower) {
            let ghost before = texts(r@);
            r.push(e.fqn.clone());
            assert(texts(r@) =~= before.push(e@.fqn));
        }
        i = i + 1;
    }
    assert(all.take(i as int) =~= all);
    r
}

spec fn request_views(v: Seq<EnrichRequest>) -> Seq<EnrichRequestView> {
    v.map_values(|x: EnrichRequest| x@)
}

/// The next entities of a scope that is at hand in lower case.
pub fn enrich_batch_lower(
    space_data: &SpaceData,
    scope_lower: Option<&str>,
    limit: usize,
    source_files: &TextMap<String>,
) -> (r: EnrichBatchRequest)
    ensures
        r@ == batch_of(space_data@, opt_str(scope_lower), limit, index_view(*source_files)),
{
    let ghost space = space_data@;
    let ghost sources = index_view(*source_files);
    let names = list_candidates(space_data, scope_lower, limit);
    let ghost all = texts(names@);
    let mut entities: Vec<EnrichRequest> = Vec::new();
    let mut i: usize = 0;
    assert(request_views(entities@) =~= requests_for(all.take(0), space, sources));
    while i < names.len()
        invariant
            i <= names@.len(),
            space == space_data@,
            sources == index_view(*source_files),
            all == texts(names@),
            request_views(entities@) == requests_for(all.take(i as int), space, sources),
        decreases names.len() - i,
    {
        assert(all[i as int] == names@[i as int]@);
        assert(all.take(i + 1).drop_last() =~= all.take(i as int));
        match enrich(space_data, names[i].as_str(), source_files) {
            Ok(request) => {
                if !request.source_code.as_str().is_empty() {
                    let ghost before = request_views(entities@);
                    let ghost rv = request@;
                    entities.push(request);
                    assert(request_views(entities@) =~= before.push(rv));
                }
            },
            Err(_) => {},
        }
        i = i + 1;
    }
    assert(all.take(i as int) =~= all);
    EnrichBatchRequest {
        entities,
        instructions: "Analyze each entity and call the `annotate` tool with the results.".to_owned(),
    }
}

/// The next entities of a scope that want annotation.
pub fn enrich_batch(space_data: &SpaceData, scope: Option<&str>, limit: usize, source_files: &TextMap<String>) -> (r:
    EnrichBatchRequest)
    ensures
        r@ == batch_of(space_data@, opt_lower(scope), limit, index_view(*source_files)),
{
    match scope {
        Some(s) => {
            let lower = s.to_lowercase();
            enrich_batch_lower(space_data, Some(lower.as_str()), limit, source_files)
        },
        None => enrich_batch_lower(space_data, None, limit, source_files),
    }
}

} // verus!
