//! Everything that is known of a lifted code base.

use higher_graphen_structure::space::InMemorySpaceStore;
use vstd::prelude::*;

use crate::model::entity::JavaEntityType;
use crate::model::graph::{Cell, CellView, Incidence, LinkView, Space};
use crate::model::relation::JavaRelationType;
use crate::model::semantic::{AnnotationView, SemanticAnnotation};
use crate::model::store::{empty_store, put_cell, put_link, put_space, store_view, StoreView};
use crate::model::witness::{WitnessInfo, WitnessView};
use crate::text::texts;
use crate::text_map::{key_position, lemma_key_position, lookup, with_entry, TextMap};

verus! {

#[derive(Debug)]
pub struct EntityRecord {
    pub fqn: String,
    pub cell_id: String,
    pub entity_type: JavaEntityType,
    pub label: String,
    pub witness: WitnessInfo,
}

#[derive(Debug)]
pub struct RelationRecord {
    pub incidence_id: String,
    pub relation_type: JavaRelationType,
    pub from_fqn: String,
    pub to_fqn: String,
    pub witness: WitnessInfo,
}

/// A reference that the lift could not resolve to an entity.
#[derive(Debug)]
pub struct UnresolvedRecord {
    pub relation_type: JavaRelationType,
    pub from_fqn: String,
    pub target_text: String,
    pub file: String,
    pub line: u32,
}

pub struct SpaceData {
    pub space: Space,
    pub cells: Vec<Cell>,
    pub incidences: Vec<Incidence>,
    pub entities: Vec<EntityRecord>,
    pub relations: Vec<RelationRecord>,
    pub fqn_to_cell_id: TextMap<String>,
    pub annotations: TextMap<SemanticAnnotation>,
    pub obstructions: Vec<String>,
    pub unresolved: Vec<UnresolvedRecord>,
    pub store: Option<InMemorySpaceStore>,
}

#[verifier::ext_equal]
pub struct EntityView {
    pub fqn: Seq<char>,
    pub cell_id: Seq<char>,
    pub entity_type: JavaEntityType,
    pub label: Seq<char>,
    pub witness: WitnessView,
}

#[verifier::ext_equal]
pub struct RelationView {
    pub incidence_id: Seq<char>,
    pub relation_type: JavaRelationType,
    pub from_fqn: Seq<char>,
    pub to_fqn: Seq<char>,
    pub witness: WitnessView,
}

#[verifier::ext_equal]
pub struct UnresolvedView {
    pub relation_type: JavaRelationType,
    pub from_fqn: Seq<char>,
    pub target_text: Seq<char>,
    pub file: Seq<char>,
    pub line: u32,
}

impl View for EntityRecord {
    type V = EntityView;

    open spec fn view(&self) -> EntityView {
        EntityView {
            fqn: self.fqn@,
            cell_id: self.cell_id@,
            entity_type: self.entity_type,
            label: self.label@,
            witness: self.witness@,
        }
    }
}

impl View for RelationRecord {
    type V = RelationView;

    open spec fn view(&self) -> RelationView {
        RelationView {
            incidence_id: self.incidence_id@,
            relation_type: self.relation_type,
            from_fqn: self.from_fqn@,
            to_fqn: self.to_fqn@,
            witness: self.witness@,
        }
    }
}

impl View for UnresolvedRecord {
    type V = UnresolvedView;

    open spec fn view(&self) -> UnresolvedView {
        UnresolvedView {
            relation_type: self.relation_type,
            from_fqn: self.from_fqn@,
            target_text: self.target_text@,
            file: self.file@,
            line: self.line,
        }
    }
}

/// A lifted code base as mathematics.
#[verifier::ext_equal]
pub struct SpaceView {
    pub id: Seq<char>,
    pub name: Seq<char>,
    pub cell_ids: Seq<Seq<char>>,
    pub incidence_ids: Seq<Seq<char>>,
    pub cells: Seq<CellView>,
    pub links: Seq<LinkView>,
    pub entities: Seq<EntityView>,
    pub relations: Seq<RelationView>,
    pub index: Seq<(Seq<char>, Seq<char>)>,
    pub annotations: Seq<(Seq<char>, AnnotationView)>,
    pub obstructions: Seq<Seq<char>>,
    pub unresolved: Seq<UnresolvedView>,
}

/// The entries of a map from names to cell identifiers.
pub open spec fn index_view(m: TextMap<String>) -> Seq<(Seq<char>, Seq<char>)> {
    m.entries().map_values(|e: (Seq<char>, String)| (e.0, e.1@))
}

/// The entries of a map from cell identifiers to annotations.
pub open spec fn annotations_view(m: TextMap<SemanticAnnotation>) -> Seq<(Seq<char>, AnnotationView)> {
    m.entries().map_values(|e: (Seq<char>, SemanticAnnotation)| (e.0, e.1@))
}

impl View for SpaceData {
    type V = SpaceView;

    open spec fn view(&self) -> SpaceView {
        SpaceView {
            id: self.space.id@,
            name: self.space.name@,
            cell_ids: texts(self.space.cell_ids@),
            incidence_ids: texts(self.space.incidence_ids@),
            cells: self.cells@.map_values(|c: Cell| c@),
            links: self.incidences@.map_values(|i: Incidence| i@),
            entities: self.entities@.map_values(|e: EntityRecord| e@),
            relations: self.relations@.map_values(|r: RelationRecord| r@),
            index: index_view(self.fqn_to_cell_id),
            annotations: annotations_view(self.annotations),
            obstructions: texts(self.obstructions@),
            unresolved: self.unresolved@.map_values(|u: UnresolvedRecord| u@),
        }
    }
}

/// Looking a key up does not depend on what values look like.
pub proof fn lemma_view_position<V, W>(entries: Seq<(Seq<char>, V)>, f: spec_fn(V) -> W, key: Seq<char>)
    ensures
        key_position(entries.map_values(|e: (Seq<char>, V)| (e.0, f(e.1))), key) == key_position(entries, key),
    decreases entries.len(),
{
    let g = |e: (Seq<char>, V)| (e.0, f(e.1));
    let mapped = entries.map_values(g);
    if entries.len() > 0 {
        lemma_view_position(entries.drop_last(), f, key);
        assert(mapped.drop_last() =~= entries.drop_last().map_values(g));
    }
}

/// Setting a key does not depend on what values look like.
pub proof fn lemma_view_entry<V, W>(entries: Seq<(Seq<char>, V)>, f: spec_fn(V) -> W, key: Seq<char>, value: V)
    ensures
        with_entry(entries, key, value).map_values(|e: (Seq<char>, V)| (e.0, f(e.1))) == with_entry(
            entries.map_values(|e: (Seq<char>, V)| (e.0, f(e.1))),
            key,
            f(value),
        ),
{
    let g = |e: (Seq<char>, V)| (e.0, f(e.1));
    lemma_view_position(entries, f, key);
    lemma_key_position(entries, key);
    assert(with_entry(entries, key, value).map_values(g) =~= with_entry(entries.map_values(g), key, f(value)));
}

/// Sets the text of a key.
pub fn put_entry(index: &mut TextMap<String>, name: String, cell_id: String)
    ensures
        index_view(*final(index)) == with_entry(index_view(*old(index)), name@, cell_id@),
{
    proof {
        let f = |v: String| v@;
        let es = index.entries();
        lemma_view_entry(es, f, name@, cell_id);
        assert(index_view(*index) =~= es.map_values(|e: (Seq<char>, String)| (e.0, f(e.1))));
        assert(with_entry(es, name@, cell_id).map_values(|e: (Seq<char>, String)| (e.0, f(e.1))) =~= with_entry(
            es,
            name@,
            cell_id,
        ).map_values(|e: (Seq<char>, String)| (e.0, e.1@)));
    }
    index.insert(name, cell_id);
}

/// The text of a key.
pub fn entry_of<'a>(index: &'a TextMap<String>, name: &str) -> (r: Option<&'a String>)
    ensures
        match r {
            Some(id) => lookup(index_view(*index), name@) == Some(id@),
            None => lookup(index_view(*index), name@) is None,
        },
{
    proof {
        let f = |v: String| v@;
        let es = index.entries();
        lemma_view_position(es, f, name@);
        lemma_key_position(es, name@);
        assert(index_view(*index) =~= es.map_values(|e: (Seq<char>, String)| (e.0, f(e.1))));
    }
    index.get(name)
}

/// The same entries again.
pub fn copy_entries(map: &TextMap<String>) -> (r: TextMap<String>)
    ensures
        index_view(r) == index_view(*map),
{
    let ghost all = index_view(*map);
    let mut r: TextMap<String> = TextMap::new();
    let n: usize = map.len();
    let mut k: usize = 0;
    assert(index_view(r) =~= all.take(0));
    while k < n
        invariant
            all == index_view(*map),
            n == map.entries().len(),
            k <= n,
            index_view(r) == all.take(k as int),
        decreases n - k,
    {
        let ghost es = map.entries();
        let key = map.key_at(k);
        assert(all[k as int] == (es[k as int].0, es[k as int].1@));
        proof {
            lemma_key_position(all.take(k as int), key@);
            if let Some(j) = key_position(all.take(k as int), key@) {
                assert(all.take(k as int)[j].0 == es[j].0);
            }
        }
        put_entry(&mut r, key.clone(), map.value_at(k).clone());
        k = k + 1;
        assert(index_view(r) =~= all.take(k as int));
    }
    assert(all.take(k as int) =~= all);
    r
}

/// The same annotations again.
pub fn copy_annotations(map: &TextMap<SemanticAnnotation>) -> (r: TextMap<SemanticAnnotation>)
    ensures
        annotations_view(r) == annotations_view(*map),
{
    let ghost all = annotations_view(*map);
    let mut r: TextMap<SemanticAnnotation> = TextMap::new();
    let n: usize = map.len();
    let mut k: usize = 0;
    assert(annotations_view(r) =~= all.take(0));
    while k < n
        invariant
            all == annotations_view(*map),
            n == map.entries().len(),
            k <= n,
            annotations_view(r) == all.take(k as int),
        decreases n - k,
    {
        let ghost es = map.entries();
        let key = map.key_at(k);
        assert(all[k as int] == (es[k as int].0, es[k as int].1@));
        proof {
            lemma_key_position(all.take(k as int), key@);
            if let Some(j) = key_position(all.take(k as int), key@) {
                assert(all.take(k as int)[j].0 == es[j].0);
            }
        }
        let value = map.value_at(k).copied();
        proof {
            let f = |v: SemanticAnnotation| v@;
            let now = r.entries();
            lemma_view_entry(now, f, key@, value);
            assert(annotations_view(r) =~= now.map_values(|e: (Seq<char>, SemanticAnnotation)| (e.0, f(e.1))));
            assert(with_entry(now, key@, value).map_values(|e: (Seq<char>, SemanticAnnotation)| (e.0, f(e.1)))
                =~= with_entry(now, key@, value).map_values(|e: (Seq<char>, SemanticAnnotation)| (e.0, e.1@)));
        }
        r.insert(key.clone(), value);
        k = k + 1;
        assert(annotations_view(r) =~= all.take(k as int));
    }
    assert(all.take(k as int) =~= all);
    r
}

/// A store with the cells that it takes, in order.
pub open spec fn with_cells(store: StoreView, cells: Seq<CellView>) -> StoreView
    decreases cells.len(),
{
    if cells.len() == 0 {
        store
    } else {
        let before = with_cells(store, cells.drop_last());
        let c = cells.last();
        if before.takes_cell(c.id, c.space_id, c.cell_type) {
            before.with_cell(c.id, c.space_id)
        } else {
            before
        }
    }
}

/// A store with the relations that it takes, in order.
pub open spec fn with_links(store: StoreView, links: Seq<LinkView>) -> StoreView
    decreases links.len(),
{
    if links.len() == 0 {
        store
    } else {
        let before = with_links(store, links.drop_last());
        let l = links.last();
        if before.takes_link(l.id, l.space_id, l.from, l.to, l.relation) {
            before.with_link(l.id, l.space_id, l.from, l.to, l.relation)
        } else {
            before
        }
    }
}

/// The store of a space: none when the space itself is not taken.
pub open spec fn store_of(space: SpaceView) -> Option<StoreView> {
    let empty = StoreView::empty();
    if empty.takes_space(space.id, space.name) {
        Some(with_links(with_cells(empty.with_space(space.id), space.cells), space.links))
    } else {
        None
    }
}

impl EntityRecord {
    /// The same record again.
    pub fn copied(&self) -> (r: Self)
        ensures
            r@ == self@,
    {
        EntityRecord {
            fqn: self.fqn.clone(),
            cell_id: self.cell_id.clone(),
            entity_type: self.entity_type,
            label: self.label.clone(),
            witness: self.witness.copied(),
        }
    }
}

impl RelationRecord {
    /// The same record again.
    pub fn copied(&self) -> (r: Self)
        ensures
            r@ == self@,
    {
        RelationRecord {
            incidence_id: self.incidence_id.clone(),
            relation_type: self.relation_type,
            from_fqn: self.from_fqn.clone(),
            to_fqn: self.to_fqn.clone(),
            witness: self.witness.copied(),
        }
    }
}

impl UnresolvedRecord {
    /// The same record again.
    pub fn copied(&self) -> (r: Self)
        ensures
            r@ == self@,
    {
        UnresolvedRecord {
            relation_type: self.relation_type,
            from_fqn: self.from_fqn.clone(),
            target_text: self.target_text.clone(),
            file: self.file.clone(),
            line: self.line,
        }
    }
}

impl SpaceData {
    /// What the graph store holds, if it has been built.
    pub open spec fn stored(self) -> Option<StoreView> {
        match self.store {
            Some(s) => Some(store_view(s)),
            None => None,
        }
    }

    pub fn new(
        space: Space,
        cells: Vec<Cell>,
        incidences: Vec<Incidence>,
        entities: Vec<EntityRecord>,
        relations: Vec<RelationRecord>,
        fqn_to_cell_id: TextMap<String>,
    ) -> (r: Self)
        ensures
            r@ == (SpaceView {
                id: space.id@,
                name: space.name@,
                cell_ids: texts(space.cell_ids@),
                incidence_ids: texts(space.incidence_ids@),
                cells: cells@.map_values(|c: Cell| c@),
                links: incidences@.map_values(|i: Incidence| i@),
                entities: entities@.map_values(|e: EntityRecord| e@),
                relations: relations@.map_values(|r: RelationRecord| r@),
                index: index_view(fqn_to_cell_id),
                annotations: Seq::empty(),
                obstructions: Seq::empty(),
                unresolved: Seq::empty(),
            }),
            r.stored() is None,
    {
        let r = SpaceData {
            space,
            cells,
            incidences,
            entities,
            relations,
            fqn_to_cell_id,
            annotations: TextMap::new(),
            obstructions: Vec::new(),
            unresolved: Vec::new(),
            store: None,
        };
        assert(r@.annotations =~= Seq::empty());
        assert(r@.obstructions =~= Seq::empty());
        assert(r@.unresolved =~= Seq::empty());
        r
    }

    /// Builds the graph store anew from the cells and incidences; what the
    /// store does not take is left out. Nothing changes when it does not
    /// take the space.
    pub fn rebuild_store(&mut self)
        ensures
            final(self)@ == old(self)@,
            final(self).stored() == match store_of(old(self)@) {
                Some(s) => Some(s),
                None => old(self).stored(),
            },
    {
        let ghost view = self@;
        let mut store = empty_store();
        if !put_space(&mut store, self.space.id.as_str(), self.space.name.as_str()) {
            return ;
        }
        let ghost start = StoreView::empty().with_space(view.id);
        let mut i: usize = 0;
        while i < self.cells.len()
            invariant
                i <= self.cells.len(),
                view == self@,
                store_view(store) == with_cells(start, view.cells.take(i as int)),
                *old(self) == *self,
            decreases self.cells.len() - i,
        {
            let c = &self.cells[i];
            assert(view.cells[i as int] == c@);
            assert(view.cells.take(i + 1).drop_last() =~= view.cells.take(i as int));
            put_cell(&mut store, c.id.as_str(), c.space_id.as_str(), c.dimension, c.cell_type.as_str());
            i = i + 1;
        }
        assert(view.cells.take(i as int) =~= view.cells);
        let ghost filled = with_cells(start, view.cells);
        let mut k: usize = 0;
        while k < self.incidences.len()
            invariant
                k <= self.incidences.len(),
                view == self@,
                store_view(store) == with_links(filled, view.links.take(k as int)),
                *old(self) == *self,
            decreases self.incidences.len() - k,
        {
            let l = &self.incidences[k];
            assert(view.links[k as int] == l@);
            assert(view.links.take(k + 1).drop_last() =~= view.links.take(k as int));
            put_link(
                &mut store,
                l.id.as_str(),
                l.space_id.as_str(),
                l.from_cell_id.as_str(),
                l.to_cell_id.as_str(),
                l.relation_type.as_str(),
            );
            k = k + 1;
        }
        assert(view.links.take(k as int) =~= view.links);
        self.store = Some(store);
    }

    pub fn store(&self) -> (r: Option<&InMemorySpaceStore>)
        ensures
            match r {
                Some(s) => self.stored() == Some(store_view(*s)),
                None => self.stored() is None,
            },
    {
        self.store.as_ref()
    }

    /// The store, built on the first call.
    pub fn ensure_store(&mut self) -> (r: &InMemorySpaceStore)
        requires
            old(self).stored() is Some || store_of(old(self)@) is Some,
        ensures
            final(self)@ == old(self)@,
            final(self).stored() == match old(self).stored() {
                Some(s) => Some(s),
                None => store_of(old(self)@),
            },
            final(self).stored() == Some(store_view(*r)),
    {
        if self.store.is_none() {
            self.rebuild_store();
        }
        match &self.store {
            Some(s) => s,
            None => {
                assert(false);
                vstd::pervasive::unreached()
            },
        }
    }
}

} // verus!
