//! What a change of a symbol can affect.

use higher_graphen_structure::space::InMemorySpaceStore;
use vstd::prelude::*;

use crate::lines::trimmed;
use crate::model::graph::{CellView, LinkView};
use crate::model::ids::{id_error, new_id};
use crate::model::space_data::{EntityRecord, EntityView, SpaceData, SpaceView};
use crate::model::store::{
    distance, is_tight, lemma_shortest, lemma_tight, shortest, store_view, valid_id, Direction, StoreView,
};
use crate::order::stable_sorted;
use crate::query::feature::{by_text, sorted_texts};
use crate::query::resolve::{
    entity_views, entity_with, find_entity, not_found, resolve_symbol, resolved, symbol_not_found,
};
use crate::text::{same, texts};
use crate::text_set::{including, TextSet};

verus! {

#[derive(Debug)]
pub struct ImpactEntry {
    pub fqn: String,
    pub label: String,
    pub relation_type: String,
    pub file: String,
    pub line: u32,
    pub depth: usize,
}

#[verifier::ext_equal]
pub struct ImpactEntryView {
    pub fqn: Seq<char>,
    pub label: Seq<char>,
    pub relation_type: Seq<char>,
    pub file: Seq<char>,
    pub line: u32,
    pub depth: usize,
}

impl View for ImpactEntry {
    type V = ImpactEntryView;

    open spec fn view(&self) -> ImpactEntryView {
        ImpactEntryView {
            fqn: self.fqn@,
            label: self.label@,
            relation_type: self.relation_type@,
            file: self.file@,
            line: self.line,
            depth: self.depth,
        }
    }
}

#[derive(Debug)]
pub struct ImpactResult {
    pub changed_symbol: String,
    pub direct_impacts: Vec<ImpactEntry>,
    pub transitive_impacts: Vec<ImpactEntry>,
    pub affected_files: Vec<String>,
    pub total_affected: usize,
}

#[verifier::ext_equal]
pub struct ImpactResultView {
    pub changed_symbol: Seq<char>,
    pub direct_impacts: Seq<ImpactEntryView>,
    pub transitive_impacts: Seq<ImpactEntryView>,
    pub affected_files: Seq<Seq<char>>,
    pub total_affected: usize,
}

impl View for ImpactResult {
    type V = ImpactResultView;

    open spec fn view(&self) -> ImpactResultView {
        ImpactResultView {
            changed_symbol: self.changed_symbol@,
            direct_impacts: self.direct_impacts@.map_values(|x: ImpactEntry| x@),
            transitive_impacts: self.transitive_impacts@.map_values(|x: ImpactEntry| x@),
            affected_files: texts(self.affected_files@),
            total_affected: self.total_affected,
        }
    }
}

/// A relation along which changes spread, from what is used to its user.
pub open spec fn spreads(relation: Seq<char>) -> bool {
    ||| relation == "java.calls"@
    ||| relation == "java.constructs"@
    ||| relation == "java.extends"@
    ||| relation == "java.implements"@
    ||| relation == "java.type_reference"@
}

/// The relations along which changes spread.
pub open spec fn spreading() -> Seq<Seq<char>> {
    seq!["java.calls"@, "java.constructs"@, "java.extends"@, "java.implements"@, "java.type_reference"@]
}

/// What has been found to be affected.
#[verifier::ext_equal]
pub struct Affected {
    pub visited: Seq<Seq<char>>,
    pub direct: Seq<ImpactEntryView>,
    pub transitive: Seq<ImpactEntryView>,
    pub files: Seq<Seq<char>>,
}

pub open spec fn none_affected(changed: Seq<char>) -> Affected {
    Affected { visited: seq![changed], direct: Seq::empty(), transitive: Seq::empty(), files: Seq::empty() }
}

/// One more cell is affected, at the given distance.
pub open spec fn with_affected(
    a: Affected,
    entities: Seq<EntityView>,
    cell_id: Seq<char>,
    relation: Seq<char>,
    depth: nat,
) -> Affected {
    let visited = a.visited.push(cell_id);
    match entity_with(entities, cell_id) {
        None => Affected { visited, ..a },
        Some(i) => {
            let e = entities[i];
            let entry = ImpactEntryView {
                fqn: e.fqn,
                label: e.label,
                relation_type: relation,
                file: e.witness.file,
                line: e.witness.start_line,
                depth: depth as usize,
            };
            Affected {
                visited,
                direct: if depth == 1 {
                    a.direct.push(entry)
                } else {
                    a.direct
                },
                transitive: if depth == 1 {
                    a.transitive
                } else {
                    a.transitive.push(entry)
                },
                files: if e.witness.file.len() == 0 {
                    a.files
                } else {
                    including(a.files, e.witness.file)
                },
            }
        },
    }
}

/// How far a cell is from the changed one, if the store knows both.
pub open spec fn stored_distance(
    store: StoreView,
    space: Seq<char>,
    changed: Seq<char>,
    cell_id: Seq<char>,
    max_depth: usize,
) -> Option<usize> {
    if valid_id(space) && valid_id(changed) && valid_id(cell_id) && store.owns(trimmed(space), trimmed(changed))
        && store.owns(trimmed(space), trimmed(cell_id)) {
        shortest(
            store.links,
            trimmed(space),
            Direction::Incoming,
            spreading(),
            trimmed(changed),
            trimmed(cell_id),
            Some(max_depth),
        )
    } else {
        None
    }
}

/// The affected cells among the first ones, by the store.
pub open spec fn affected_by_store(
    store: StoreView,
    space: SpaceView,
    cells: Seq<CellView>,
    changed: Seq<char>,
    max_depth: usize,
) -> Affected
    decreases cells.len(),
{
    if cells.len() == 0 {
        none_affected(changed)
    } else {
        let before = affected_by_store(store, space, cells.drop_last(), changed, max_depth);
        let id = cells.last().id;
        if before.visited.contains(id) {
            before
        } else {
            match stored_distance(store, space.id, changed, id, max_depth) {
                Some(d) => with_affected(before, space.entities, id, "java.calls"@, d as nat),
                None => before,
            }
        }
    }
}

/// A breadth-first search: what has been found, and the cells still to look
/// at with their distances.
#[verifier::ext_equal]
pub struct Frontier {
    pub found: Affected,
    pub queue: Seq<(Seq<char>, nat)>,
}

/// The search after the first `n` relations have been followed from a cell.
pub open spec fn spread_from(
    space: SpaceView,
    n: int,
    cell_id: Seq<char>,
    depth: nat,
    f: Frontier,
) -> Frontier
    decreases n,
{
    if n <= 0 {
        f
    } else {
        let before = spread_from(space, n - 1, cell_id, depth, f);
        let l = space.links[n - 1];
        if l.to == cell_id && spreads(l.relation) && !before.found.visited.contains(l.from) {
            Frontier {
                found: with_affected(before.found, space.entities, l.from, l.relation, depth + 1),
                queue: before.queue.push((l.from, depth + 1)),
            }
        } else {
            before
        }
    }
}

/// The number of relations that start at a cell that has not been visited.
pub open spec fn unvisited(links: Seq<LinkView>, visited: Seq<Seq<char>>) -> nat
    decreases links.len(),
{
    if links.len() == 0 {
        0
    } else {
        unvisited(links.drop_last(), visited) + if visited.contains(links.last().from) {
            0nat
        } else {
            1nat
        }
    }
}

/// What is left to do at most.
pub open spec fn work_left(space: SpaceView, f: Frontier) -> nat {
    unvisited(space.links, f.found.visited) + f.queue.len()
}

/// The search after one more cell has been looked at.
pub open spec fn spread_once(space: SpaceView, f: Frontier, max_depth: usize) -> Frontier {
    let (cell_id, depth) = f.queue[0];
    let rest = Frontier { queue: f.queue.skip(1), ..f };
    if depth >= max_depth {
        rest
    } else {
        spread_from(space, space.links.len() as int, cell_id, depth, rest)
    }
}

/// The search to its end.
pub open spec fn spread_all(space: SpaceView, f: Frontier, max_depth: usize) -> Affected
    decreases work_left(space, f),
{
    if f.queue.len() == 0 {
        f.found
    } else {
        let next = spread_once(space, f, max_depth);
        if work_left(space, next) < work_left(space, f) {
            spread_all(space, next, max_depth)
        } else {
            f.found
        }
    }
}

/// The affected cells by the relations alone.
pub open spec fn affected_by_links(space: SpaceView, changed: Seq<char>, max_depth: usize) -> Affected {
    spread_all(space, Frontier { found: none_affected(changed), queue: seq![(changed, 0)] }, max_depth)
}

pub open spec fn impact_view(fqn: Seq<char>, a: Affected) -> ImpactResultView {
    ImpactResultView {
        changed_symbol: fqn,
        direct_impacts: a.direct,
        transitive_impacts: a.transitive,
        affected_files: stable_sorted(a.files, by_text()),
        total_affected: (a.direct.len() + a.transitive.len()) as usize,
    }
}

/// What a change of a symbol affects, up to a distance: by the store if there
/// is one, else by the relations.
pub open spec fn impact_of(space: SpaceView, store: Option<StoreView>, symbol: Seq<char>, max_depth: usize) -> Result<
    ImpactResultView,
    Seq<char>,
> {
    match resolved(space.index, symbol) {
        None => Err(not_found(symbol)),
        Some((fqn, cell_id)) => match store {
            Some(s) => if valid_id(cell_id) {
                Ok(impact_view(fqn, affected_by_store(s, space, space.cells, cell_id, max_depth)))
            } else {
                Err(id_error(cell_id))
            },
            None => Ok(impact_view(fqn, affected_by_links(space, cell_id, max_depth))),
        },
    }
}

pub open spec fn impact_result(r: Result<ImpactResult, String>) -> Result<ImpactResultView, Seq<char>> {
    match r {
        Ok(x) => Ok(x@),
        Err(e) => Err(e@),
    }
}

spec fn impact_views(v: Seq<ImpactEntry>) -> Seq<ImpactEntryView> {
    v.map_values(|x: ImpactEntry| x@)
}

/// What has been found to be affected.
struct Found {
    visited: TextSet,
    direct: Vec<ImpactEntry>,
    transitive: Vec<ImpactEntry>,
    files: TextSet,
}

impl View for Found {
    type V = Affected;

    closed spec fn view(&self) -> Affected {
        Affected {
            visited: self.visited.texts(),
            direct: impact_views(self.direct@),
            transitive: impact_views(self.transitive@),
            files: self.files.texts(),
        }
    }
}

impl Found {
    fn new(changed: &str) -> (r: Self)
        ensures
            r@ == none_affected(changed@),
    {
        let mut visited = TextSet::new();
        visited.add_text(changed.to_owned());
        let r = Found { visited, direct: Vec::new(), transitive: Vec::new(), files: TextSet::new() };
        assert(r@ =~= none_affected(changed@));
        r
    }

    fn note(&mut self, entities: &Vec<EntityRecord>, cell_id: &str, relation: &str, depth: usize)
        requires
            !old(self)@.visited.contains(cell_id@),
            old(self)@.direct.len() + old(self)@.transitive.len() < old(self)@.visited.len(),
        ensures
            final(self)@ == with_affected(
                old(self)@,
                entity_views(entities@),
                cell_id@,
                relation@,
                depth as nat,
            ),
            final(self)@.direct.len() + final(self)@.transitive.len() < final(self)@.visited.len(),
    {
        let ghost before = self@;
        self.visited.add_text(cell_id.to_owned());
        match find_entity(entities, cell_id) {
            Some(i) => {
                let e = &entities[i];
                assert(entity_views(entities@)[i as int] == e@);
                let entry = ImpactEntry {
                    fqn: e.fqn.clone(),
                    label: e.label.clone(),
                    relation_type: relation.to_owned(),
                    file: e.witness.file.clone(),
                    line: e.witness.start_line,
                    depth,
                };
                let ghost ev = entry@;
                if !e.witness.file.as_str().is_empty() {
                    self.files.add_text(e.witness.file.clone());
                }
                if depth == 1 {
                    self.direct.push(entry);
                    assert(impact_views(self.direct@) =~= before.direct.push(ev));
                } else {
                    self.transitive.push(entry);
                    assert(impact_views(self.transitive@) =~= before.transitive.push(ev));
                }
            },
            None => {},
        }
        assert(self@ =~= with_affected(before, entity_views(entities@), cell_id@, relation@, depth as nat));
    }

    fn finish(self, fqn: &str) -> (r: ImpactResult)
        requires
            self@.direct.len() + self@.transitive.len() < self@.visited.len(),
        ensures
            r@ == impact_view(fqn@, self@),
    {
        let affected_files = sorted_texts(&self.files);
        let n: usize = self.visited.len();
        assert(impact_views(self.direct@).len() == self.direct@.len());
        assert(impact_views(self.transitive@).len() == self.transitive@.len());
        let total_affected: usize = self.direct.len() + self.transitive.len();
        ImpactResult {
            changed_symbol: fqn.to_owned(),
            direct_impacts: self.direct,
            transitive_impacts: self.transitive,
            affected_files,
            total_affected,
        }
    }
}

fn spreading_relations() -> (r: Vec<String>)
    ensures
        texts(r@) == spreading(),
        forall|i: int| 0 <= i < r@.len() ==> is_tight((#[trigger] r@[i])@),
{
    let mut r: Vec<String> = Vec::new();
    r.push("java.calls".to_owned());
    r.push("java.constructs".to_owned());
    r.push("java.extends".to_owned());
    r.push("java.implements".to_owned());
    r.push("java.type_reference".to_owned());
    proof {
        reveal_strlit("java.calls");
        reveal_strlit("java.constructs");
        reveal_strlit("java.extends");
        reveal_strlit("java.implements");
        reveal_strlit("java.type_reference");
        lemma_tight("java.calls"@);
        lemma_tight("java.constructs"@);
        lemma_tight("java.extends"@);
        lemma_tight("java.implements"@);
        lemma_tight("java.type_reference"@);
    }
    assert(texts(r@) =~= spreading());
    r
}

fn find_by_store(space_data: &SpaceData, store: &InMemorySpaceStore, cell_id: &str, max_depth: usize) -> (r: Found)
    ensures
        r@ == affected_by_store(store_view(*store), space_data@, space_data@.cells, cell_id@, max_depth),
        r@.direct.len() + r@.transitive.len() < r@.visited.len(),
{
    let ghost space = space_data@;
    let ghost sv = store_view(*store);
    let ghost all = space.cells;
    let relations = spreading_relations();
    let mut r = Found::new(cell_id);
    let mut i: usize = 0;
    while i < space_data.cells.len()
        invariant
            i <= space_data.cells@.len(),
            space == space_data@,
            sv == store_view(*store),
            all == space.cells,
            texts(relations@) == spreading(),
            forall|i: int| 0 <= i < relations@.len() ==> is_tight((#[trigger] relations@[i])@),
            r@ == affected_by_store(sv, space, all.take(i as int), cell_id@, max_depth),
            r@.direct.len() + r@.transitive.len() < r@.visited.len(),
        decreases space_data.cells.len() - i,
    {
        let c = &space_data.cells[i];
        assert(all[i as int] == c@);
        assert(all.take(i + 1).drop_last() =~= all.take(i as int));
        let id = c.id.as_str();
        if !r.visited.has(id) {
            match distance(
                store,
                space_data.space.id.as_str(),
                cell_id,
                id,
                Direction::Incoming,
                &relations,
                Some(max_depth),
            ) {
                Some(answer) => {
                    proof {
                        lemma_shortest(
                            sv.links,
                            trimmed(space.id),
                            Direction::Incoming,
                            spreading(),
                            trimmed(cell_id@),
                            trimmed(id@),
                            Some(max_depth),
                            answer,
                        );
                    }
                    match answer {
                        Some(d) => {
                            r.note(&space_data.entities, id, "java.calls", d);
                        },
                        None => {},
                    }
                },
                None => {},
            }
        }
        i = i + 1;
    }
    assert(all.take(i as int) =~= all);
    r
}

fn spreads_along(relation: &str) -> (r: bool)
    ensures
        r == spreads(relation@),
{
    same(relation, "java.calls") || same(relation, "java.constructs") || same(relation, "java.extends") || same(
        relation,
        "java.implements",
    ) || same(relation, "java.type_reference")
}

spec fn queue_views(v: Seq<(String, usize)>) -> Seq<(Seq<char>, nat)> {
    v.map_values(|p: (String, usize)| (p.0@, p.1 as nat))
}

/// Visiting one more cell, at which a relation starts, leaves fewer relations.
proof fn lemma_unvisited(links: Seq<LinkView>, visited: Seq<Seq<char>>, id: Seq<char>)
    ensures
        unvisited(links, visited.push(id)) <= unvisited(links, visited),
        (!visited.contains(id) && exists|i: int| 0 <= i < links.len() && (#[trigger] links[i]).from == id)
            ==> unvisited(links, visited.push(id)) < unvisited(links, visited),
    decreases links.len(),
{
    let more = visited.push(id);
    assert forall|x: Seq<char>| #[trigger] more.contains(x) <==> visited.contains(x) || x == id by {
        if visited.contains(x) {
            let i = choose|i: int| 0 <= i < visited.len() && visited[i] == x;
            assert(more[i] == x);
        }
        assert(more[visited.len() as int] == id);
    }
    if links.len() > 0 {
        let front = links.drop_last();
        lemma_unvisited(front, visited, id);
        if exists|i: int| 0 <= i < links.len() && (#[trigger] links[i]).from == id {
            let i = choose|i: int| 0 <= i < links.len() && (#[trigger] links[i]).from == id;
            if i < front.len() {
                assert(front[i].from == id);
            }
        }
    }
}

pub proof fn lemma_spread_from(space: SpaceView, n: int, cell_id: Seq<char>, depth: nat, f: Frontier)
    requires
        0 <= n <= space.links.len(),
    ensures
        work_left(space, spread_from(space, n, cell_id, depth, f)) <= work_left(space, f),
    decreases n,
{
    if n > 0 {
        lemma_spread_from(space, n - 1, cell_id, depth, f);
        let before = spread_from(space, n - 1, cell_id, depth, f);
        let l = space.links[n - 1];
        if l.to == cell_id && spreads(l.relation) && !before.found.visited.contains(l.from) {
            lemma_unvisited(space.links, before.found.visited, l.from);
        }
    }
}

fn find_by_links(space_data: &SpaceData, cell_id: &str, max_depth: usize) -> (r: Found)
    ensures
        r@ == affected_by_links(space_data@, cell_id@, max_depth),
        r@.direct.len() + r@.transitive.len() < r@.visited.len(),
{
    let ghost space = space_data@;
    let mut r = Found::new(cell_id);
    let mut queue: Vec<(String, usize)> = Vec::new();
    queue.push((cell_id.to_owned(), 0));
    let mut at: usize = 0;
    let ghost total = affected_by_links(space, cell_id@, max_depth);
    assert(queue_views(queue@).skip(0) =~= seq![(cell_id@, 0nat)]);
    while at < queue.len()
        invariant
            space == space_data@,
            at <= queue@.len(),
            r@.direct.len() + r@.transitive.len() < r@.visited.len(),
            total == affected_by_links(space, cell_id@, max_depth),
            total == spread_all(
                space,
                Frontier { found: r@, queue: queue_views(queue@).skip(at as int) },
                max_depth,
            ),
        decreases work_left(space, Frontier { found: r@, queue: queue_views(queue@).skip(at as int) }),
    {
        let ghost f = Frontier { found: r@, queue: queue_views(queue@).skip(at as int) };
        let current = queue[at].0.clone();
        let depth: usize = queue[at].1;
        assert(f.queue[0] == (current@, depth as nat));
        at = at + 1;
        let ghost rest = Frontier { queue: f.queue.skip(1), ..f };
        assert(queue_views(queue@).skip(at as int) =~= f.queue.skip(1));
        if depth < max_depth {
            let mut i: usize = 0;
            while i < space_data.incidences.len()
                invariant
                    space == space_data@,
                    depth < max_depth,
                    at <= queue@.len(),
                    i <= space_data.incidences@.len(),
                    r@.direct.len() + r@.transitive.len() < r@.visited.len(),
                    spread_from(space, i as int, current@, depth as nat, rest) == (Frontier {
                        found: r@,
                        queue: queue_views(queue@).skip(at as int),
                    }),
                decreases space_data.incidences.len() - i,
            {
                let l = &space_data.incidences[i];
                assert(space.links[i as int] == l@);
                if same(l.to_cell_id.as_str(), current.as_str()) && spreads_along(l.relation_type.as_str())
                    && !r.visited.has(l.from_cell_id.as_str()) {
                    let ghost before = queue_views(queue@);
                    r.note(
                        &space_data.entities,
                        l.from_cell_id.as_str(),
                        l.relation_type.as_str(),
                        depth + 1,
                    );
                    queue.push((l.from_cell_id.clone(), depth + 1));
                    assert(queue_views(queue@) =~= before.push((l@.from, (depth + 1) as nat)));
                    assert(queue_views(queue@).skip(at as int) =~= before.skip(at as int).push(
                        (l@.from, (depth + 1) as nat),
                    ));
                }
                i = i + 1;
            }
            proof {
                lemma_spread_from(space, space.links.len() as int, current@, depth as nat, rest);
            }
        }
        assert(spread_once(space, f, max_depth) == (Frontier {
            found: r@,
            queue: queue_views(queue@).skip(at as int),
        }));
    }
    assert(queue_views(queue@).skip(at as int).len() == 0);
    r
}

/// What a change of a symbol affects.
pub fn impact(space_data: &SpaceData, symbol: &str, max_depth: usize) -> (r: Result<ImpactResult, String>)
    ensures
        impact_result(r) == impact_of(space_data@, space_data.stored(), symbol@, max_depth),
{
    let (fqn, cell_id) = match resolve_symbol(space_data, symbol) {
        Some(pair) => pair,
        None => {
            return Err(symbol_not_found(symbol));
        },
    };
    match space_data.store() {
        Some(store) => match new_id(cell_id) {
            Ok(_) => Ok(find_by_store(space_data, store, cell_id, max_depth).finish(fqn)),
            Err(e) => Err(e),
        },
        None => Ok(find_by_links(space_data, cell_id, max_depth).finish(fqn)),
    }
}

} // verus!
