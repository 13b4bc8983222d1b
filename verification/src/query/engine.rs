//! The queries over one space and its sources.

use vstd::prelude::*;

use crate::model::graph::{Cell, Incidence, Space};
use crate::model::semantic::{AnnotationView, SemanticAnnotation};
use crate::model::space_data::{
    annotations_view, copy_annotations, copy_entries, entry_of, index_view, lemma_view_entry, EntityRecord,
    RelationRecord, SpaceData, SpaceView, UnresolvedRecord,
};
use crate::model::store::StoreView;
use crate::query::call_graph::{call_graph, callees, callers, graph_result};
use crate::query::column_usage::{column_usage, usage_of, usage_result, ColumnUsageResult};
use crate::query::crud::{crud_matrix, crud_of, crud_result, CrudMatrixResult};
use crate::query::dead_code::{dead_code, dead_code_in, DeadCodeResult};
use crate::query::dependencies::{
    class_dependencies, class_graph, dependency_result, package_dependencies, package_graph, DependencyResult,
};
use crate::query::enforces::{enforced, enforces, enforces_result, EnforcesResult};
use crate::query::enrich::{
    batch_of, enrich, enrich_batch, enrich_result, enriched, EnrichBatchRequest, EnrichRequest,
};
use crate::query::explain::{annotated, explain, explain_result, explained};
use crate::query::feature::{analyze_feature, feature_of, feature_result, FeatureResult};
use crate::query::hotspots::{hotspots, hotspots_in, hotspots_result, HotspotsResult};
use crate::query::impact::{impact, impact_of, impact_result, ImpactResult};
use crate::query::overview::{overview, overview_of, OverviewResult};
use crate::query::projection::{spec_loss_of, spec_loss_report, spec_loss_result, SpecLossReport};
use crate::query::resolve::{entity_with, find_entity, resolve_symbol, resolved};
use crate::query::search::{search, searched, SearchResult};
use crate::query::types::{CallGraphResult, ExplainResult};
use crate::query::unknowns::{opt_lower, opt_str, unknowns, unknowns_in, UnknownsResult};
use crate::text::{copy_texts, lowercase};
use crate::text_map::{lookup, with_entry, TextMap};

verus! {

/// A space and the sources it was lifted from.
pub struct QueryEngine {
    pub space_data: SpaceData,
    pub source_files: TextMap<String>,
}

/// The entity of a symbol: its name, its file and its line.
pub open spec fn witnessed(space: SpaceView, symbol: Seq<char>) -> Option<(Seq<char>, Seq<char>, u32)> {
    match resolved(space.index, symbol) {
        Some((fqn, cell_id)) => match entity_with(space.entities, cell_id) {
            Some(i) => Some((fqn, space.entities[i].witness.file, space.entities[i].witness.start_line)),
            None => None,
        },
        None => None,
    }
}

pub open spec fn witness_text(r: Option<(String, String, u32)>) -> Option<(Seq<char>, Seq<char>, u32)> {
    match r {
        Some((a, b, n)) => Some((a@, b@, n)),
        None => None,
    }
}

fn copy_cells(list: &Vec<Cell>) -> (r: Vec<Cell>)
    ensures
        r@.map_values(|x: Cell| x@) == list@.map_values(|x: Cell| x@),
{
    let mut r: Vec<Cell> = Vec::new();
    let mut i: usize = 0;
    while i < list.len()
        invariant
            i <= list@.len(),
            r@.len() == i,
            forall|k: int| 0 <= k < i ==> (#[trigger] r@[k])@ == list@[k]@,
        decreases list.len() - i,
    {
        r.push(list[i].copied());
        i = i + 1;
    }
    assert(r@.map_values(|x: Cell| x@) =~= list@.map_values(|x: Cell| x@));
    r
}

fn copy_links(list: &Vec<Incidence>) -> (r: Vec<Incidence>)
    ensures
        r@.map_values(|x: Incidence| x@) == list@.map_values(|x: Incidence| x@),
{
    let mut r: Vec<Incidence> = Vec::new();
    let mut i: usize = 0;
    while i < list.len()
        invariant
            i <= list@.len(),
            r@.len() == i,
            forall|k: int| 0 <= k < i ==> (#[trigger] r@[k])@ == list@[k]@,
        decreases list.len() - i,
    {
        r.push(list[i].copied());
        i = i + 1;
    }
    assert(r@.map_values(|x: Incidence| x@) =~= list@.map_values(|x: Incidence| x@));
    r
}

fn copy_entities(list: &Vec<EntityRecord>) -> (r: Vec<EntityRecord>)
    ensures
        r@.map_values(|x: EntityRecord| x@) == list@.map_values(|x: EntityRecord| x@),
{
    let mut r: Vec<EntityRecord> = Vec::new();
    let mut i: usize = 0;
    while i < list.len()
        invariant
            i <= list@.len(),
            r@.len() == i,
            forall|k: int| 0 <= k < i ==> (#[trigger] r@[k])@ == list@[k]@,
        decreases list.len() - i,
    {
        r.push(list[i].copied());
        i = i + 1;
    }
    assert(r@.map_values(|x: EntityRecord| x@) =~= list@.map_values(|x: EntityRecord| x@));
    r
}

fn copy_relations(list: &Vec<RelationRecord>) -> (r: Vec<RelationRecord>)
    ensures
        r@.map_values(|x: RelationRecord| x@) == list@.map_values(|x: RelationRecord| x@),
{
    let mut r: Vec<RelationRecord> = Vec::new();
    let mut i: usize = 0;
    while i < list.len()
        invariant
            i <= list@.len(),
            r@.len() == i,
            forall|k: int| 0 <= k < i ==> (#[trigger] r@[k])@ == list@[k]@,
        decreases list.len() - i,
    {
        r.push(list[i].copied());
        i = i + 1;
    }
    assert(r@.map_values(|x: RelationRecord| x@) =~= list@.map_values(|x: RelationRecord| x@));
    r
}

fn copy_unresolved(list: &Vec<UnresolvedRecord>) -> (r: Vec<UnresolvedRecord>)
    ensures
        r@.map_values(|x: UnresolvedRecord| x@) == list@.map_values(|x: UnresolvedRecord| x@),
{
    let mut r: Vec<UnresolvedRecord> = Vec::new();
    let mut i: usize = 0;
    while i < list.len()
        invariant
            i <= list@.len(),
            r@.len() == i,
            forall|k: int| 0 <= k < i ==> (#[trigger] r@[k])@ == list@[k]@,
        decreases list.len() - i,
    {
        r.push(list[i].copied());
        i = i + 1;
    }
    assert(r@.map_values(|x: UnresolvedRecord| x@) =~= list@.map_values(|x: UnresolvedRecord| x@));
    r
}

impl QueryEngine {
    /// The space that is queried.
    pub open spec fn space(self) -> SpaceView {
        self.space_data@
    }

    /// What its graph store holds.
    pub open spec fn stored(self) -> Option<StoreView> {
        self.space_data.stored()
    }

    /// The sources by their paths.
    pub open spec fn sources(self) -> Seq<(Seq<char>, Seq<char>)> {
        index_view(self.source_files)
    }

    pub fn new(space_data: SpaceData) -> (r: Self)
        ensures
            r.space_data == space_data,
            r.sources() == Seq::<(Seq<char>, Seq<char>)>::empty(),
    {
        let r = QueryEngine { space_data, source_files: TextMap::new() };
        assert(r.sources() =~= Seq::empty());
        r
    }

    pub fn with_sources(self, source_files: TextMap<String>) -> (r: Self)
        ensures
            r == (QueryEngine { source_files, ..self }),
    {
        let mut r = self;
        r.source_files = source_files;
        r
    }

    /// Resolves a symbol to its name, its file and its line.
    pub fn witness_of(&self, symbol: &str) -> (r: Option<(String, String, u32)>)
        ensures
            witness_text(r) == witnessed(self.space(), symbol@),
    {
        match resolve_symbol(&self.space_data, symbol) {
            Some((fqn, cell_id)) => match find_entity(&self.space_data.entities, cell_id) {
                Some(i) => {
                    let e = &self.space_data.entities[i];
                    assert(self.space().entities[i as int] == e@);
                    Some((fqn.to_owned(), e.witness.file.clone(), e.witness.start_line))
                },
                None => None,
            },
            None => None,
        }
    }

    /// The content of a source file.
    pub fn file_source(&self, file: &str) -> (r: Option<&str>)
        ensures
            match r {
                Some(s) => lookup(self.sources(), file@) == Some(s@),
                None => lookup(self.sources(), file@) is None,
            },
    {
        match entry_of(&self.source_files, file) {
            Some(s) => Some(s.as_str()),
            None => None,
        }
    }

    pub fn explain(&self, symbol: &str) -> (r: Result<ExplainResult, String>)
        ensures
            explain_result(r) == explained(self.space(), symbol@),
    {
        explain(&self.space_data, symbol)
    }

    pub fn callers(&self, symbol: &str) -> (r: Result<CallGraphResult, String>)
        ensures
            graph_result(r) == call_graph(self.space(), symbol@, true),
    {
        callers(&self.space_data, symbol)
    }

    pub fn callees(&self, symbol: &str) -> (r: Result<CallGraphResult, String>)
        ensures
            graph_result(r) == call_graph(self.space(), symbol@, false),
    {
        callees(&self.space_data, symbol)
    }

    pub fn overview(&self) -> (r: OverviewResult)
        ensures
            r@ == overview_of(self.space()),
    {
        overview(&self.space_data)
    }

    pub fn search(&self, query: &str, entity_type: Option<&str>, limit: usize) -> (r: SearchResult)
        ensures
            r@ == searched(self.space(), query@, lowercase(query@), opt_lower(entity_type), limit),
    {
        search(&self.space_data, query, entity_type, limit)
    }

    pub fn package_dependencies(&self) -> (r: DependencyResult)
        ensures
            r@ == package_graph(self.space()),
    {
        package_dependencies(&self.space_data)
    }

    pub fn class_dependencies(&self, class_fqn: &str) -> (r: Result<DependencyResult, String>)
        ensures
            dependency_result(r) == class_graph(self.space(), class_fqn@, lowercase(class_fqn@)),
    {
        class_dependencies(&self.space_data, class_fqn)
    }

    pub fn feature(&self, keyword: &str) -> (r: Result<FeatureResult, String>)
        ensures
            feature_result(r) == feature_of(self.space(), keyword@, lowercase(keyword@)),
    {
        analyze_feature(&self.space_data, keyword)
    }

    pub fn unknowns(&self, scope: Option<&str>) -> (r: UnknownsResult)
        ensures
            r@ == unknowns_in(self.space(), opt_str(scope), opt_lower(scope)),
    {
        unknowns(&self.space_data, scope)
    }

    pub fn impact(&self, symbol: &str, max_depth: usize) -> (r: Result<ImpactResult, String>)
        ensures
            impact_result(r) == impact_of(self.space(), self.stored(), symbol@, max_depth),
    {
        impact(&self.space_data, symbol, max_depth)
    }

    pub fn enforces(&self, entry_symbol: &str, required_relation: &str, max_depth: usize) -> (r: Result<EnforcesResult, String>)
        ensures
            enforces_result(r) == enforced(self.space(), self.stored(), entry_symbol@, required_relation@, max_depth),
    {
        enforces(&self.space_data, entry_symbol, required_relation, max_depth)
    }

    pub fn spec_loss_report(&self) -> (r: Result<SpecLossReport, String>)
        ensures
            spec_loss_result(r) == spec_loss_of(self.space()),
    {
        spec_loss_report(&self.space_data)
    }

    pub fn column_usage(&self, table_class: &str) -> (r: Result<ColumnUsageResult, String>)
        ensures
            usage_result(r) == usage_of(self.space(), table_class@, lowercase(table_class@), self.sources()),
    {
        column_usage(&self.space_data, table_class, &self.source_files)
    }

    pub fn dead_code(&self) -> (r: DeadCodeResult)
        ensures
            r@ == dead_code_in(self.space(), self.sources()),
    {
        dead_code(&self.space_data, &self.source_files)
    }

    pub fn hotspots(&self, limit: usize) -> (r: Result<HotspotsResult, String>)
        ensures
            hotspots_result(r) == hotspots_in(self.space(), self.sources(), limit),
    {
        hotspots(&self.space_data, &self.source_files, limit)
    }

    pub fn crud_matrix(&self) -> (r: Result<CrudMatrixResult, String>)
        ensures
            crud_result(r) == crud_of(self.space(), self.sources()),
    {
        crud_matrix(&self.space_data, &self.source_files)
    }

    pub fn enrich(&self, symbol: &str) -> (r: Result<EnrichRequest, String>)
        ensures
            enrich_result(r) == enriched(self.space(), symbol@, self.sources()),
    {
        enrich(&self.space_data, symbol, &self.source_files)
    }

    pub fn enrich_batch(&self, scope: Option<&str>, limit: usize) -> (r: EnrichBatchRequest)
        ensures
            r@ == batch_of(self.space(), opt_lower(scope), limit, self.sources()),
    {
        enrich_batch(&self.space_data, scope, limit, &self.source_files)
    }

    /// Sets the annotation of a cell.
    pub fn annotate(&mut self, cell_id: &str, annotation: SemanticAnnotation)
        ensures
            final(self).space() == annotated(old(self).space(), cell_id@, annotation@),
            final(self).stored() == old(self).stored(),
            final(self).sources() == old(self).sources(),
    {
        let ghost before = self.space();
        proof {
            let f = |v: SemanticAnnotation| v@;
            let es = self.space_data.annotations.entries();
            lemma_view_entry(es, f, cell_id@, annotation);
            assert(annotations_view(self.space_data.annotations) =~= es.map_values(
                |e: (Seq<char>, SemanticAnnotation)| (e.0, f(e.1)),
            ));
            assert(with_entry(es, cell_id@, annotation).map_values(
                |e: (Seq<char>, SemanticAnnotation)| (e.0, f(e.1)),
            ) =~= with_entry(es, cell_id@, annotation).map_values(
                |e: (Seq<char>, SemanticAnnotation)| (e.0, e.1@),
            ));
        }
        self.space_data.annotations.insert(cell_id.to_owned(), annotation);
        assert(self.space() =~= annotated(before, cell_id@, annotation@));
    }

    /// Sets the annotation of a named entity.
    pub fn annotate_by_fqn(&mut self, fqn: &str, annotation: SemanticAnnotation) -> (r: Result<(), String>)
        ensures
            match lookup(old(self).space().index, fqn@) {
                Some(cell_id) => r is Ok && final(self).space() == annotated(
                    old(self).space(),
                    cell_id,
                    annotation@,
                ),
                None => (r matches Err(e) && e@ == "FQN not found: "@ + fqn@) && final(self).space()
                    == old(self).space(),
            },
            final(self).stored() == old(self).stored(),
            final(self).sources() == old(self).sources(),
    {
        let cell_id = match entry_of(&self.space_data.fqn_to_cell_id, fqn) {
            Some(id) => id.clone(),
            None => {
                let mut reason = "FQN not found: ".to_owned();
                reason.append(fqn);
                return Err(reason);
            },
        };
        self.annotate(cell_id.as_str(), annotation);
        Ok(())
    }

    pub fn space_data(&self) -> (r: &SpaceData)
        ensures
            *r == self.space_data,
    {
        &self.space_data
    }

    /// A copy of the space to be stored, without its graph store.
    pub fn save_snapshot(&self) -> (r: SpaceData)
        ensures
            r@ == self.space(),
            r.stored() is None,
    {
        let data = &self.space_data;
        let space = Space {
            id: data.space.id.clone(),
            name: data.space.name.clone(),
            cell_ids: copy_texts(data.space.cell_ids.as_slice()),
            incidence_ids: copy_texts(data.space.incidence_ids.as_slice()),
        };
        let mut snapshot = SpaceData::new(
            space,
            copy_cells(&data.cells),
            copy_links(&data.incidences),
            copy_entities(&data.entities),
            copy_relations(&data.relations),
            copy_entries(&data.fqn_to_cell_id),
        );
        snapshot.annotations = copy_annotations(&data.annotations);
        snapshot.obstructions = copy_texts(data.obstructions.as_slice());
        snapshot.unresolved = copy_unresolved(&data.unresolved);
        assert(snapshot@ =~= self.space());
        snapshot
    }
}

/// An annotation that was set is the one that is explained, whatever else is
/// asked before.
pub proof fn law_annotation_is_kept(space: SpaceView, cell_id: Seq<char>, annotation: AnnotationView)
    ensures
        lookup(annotated(space, cell_id, annotation).annotations, cell_id) == Some(annotation),
        annotated(space, cell_id, annotation).cells == space.cells,
        annotated(space, cell_id, annotation).links == space.links,
        annotated(space, cell_id, annotation).entities == space.entities,
        annotated(space, cell_id, annotation).index == space.index,
{
    crate::text_map::lemma_with_entry(space.annotations, cell_id, annotation);
}

} // verus!
