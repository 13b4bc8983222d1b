//! Which packages and classes depend on which.

use vstd::prelude::*;

use crate::lift::symbolic::{last_segment, segment_after_dots};
use crate::lines::{begins, starts_with};
use crate::model::entity::JavaEntityType;
use crate::model::graph::LinkView;
use crate::model::space_data::{
    entry_of, index_view, put_entry, EntityRecord, EntityView, SpaceData, SpaceView,
};
use crate::order::{lemma_sorted_map, sort_stable, stable_sorted};
use crate::query::names::{
    class_name, class_of, count_name, counted, counts_within, lemma_counted_within, package_name, package_of,
};
use crate::query::resolve::{entity_views, entity_with, find_entity};
use crate::text::{chars_of, lowercase, same, texts};
use crate::text_map::{lookup, with_entry, TextMap};
use crate::text_set::TextSet;

verus! {

#[derive(Debug)]
pub struct DependencyNode {
    pub name: String,
    pub entity_count: usize,
}

#[verifier::ext_equal]
pub struct DependencyNodeView {
    pub name: Seq<char>,
    pub entity_count: usize,
}

impl View for DependencyNode {
    type V = DependencyNodeView;

    open spec fn view(&self) -> DependencyNodeView {
        DependencyNodeView {
            name: self.name@,
            entity_count: self.entity_count,
        }
    }
}

#[derive(Debug)]
pub struct DependencyEdge {
    pub from: String,
    pub to: String,
    pub relation_count: usize,
}

#[verifier::ext_equal]
pub struct DependencyEdgeView {
    pub from: Seq<char>,
    pub to: Seq<char>,
    pub relation_count: usize,
}

impl View for DependencyEdge {
    type V = DependencyEdgeView;

    open spec fn view(&self) -> DependencyEdgeView {
        DependencyEdgeView {
            from: self.from@,
            to: self.to@,
            relation_count: self.relation_count,
        }
    }
}

#[derive(Debug)]
pub struct DependencyResult {
    pub scope: String,
    pub nodes: Vec<DependencyNode>,
    pub edges: Vec<DependencyEdge>,
}

#[verifier::ext_equal]
pub struct DependencyResultView {
    pub scope: Seq<char>,
    pub nodes: Seq<DependencyNodeView>,
    pub edges: Seq<DependencyEdgeView>,
}

impl View for DependencyResult {
    type V = DependencyResultView;

    open spec fn view(&self) -> DependencyResultView {
        DependencyResultView {
            scope: self.scope@,
            nodes: self.nodes@.map_values(|x: DependencyNode| x@),
            edges: self.edges@.map_values(|x: DependencyEdge| x@),
        }
    }
}

/// The first edge between two names.
pub open spec fn edge_between(edges: Seq<DependencyEdgeView>, from: Seq<char>, to: Seq<char>) -> Option<int>
    decreases edges.len(),
{
    if edges.len() == 0 {
        None
    } else {
        match edge_between(edges.drop_last(), from, to) {
            Some(i) => Some(i),
            None => if edges.last().from == from && edges.last().to == to {
                Some(edges.len() - 1)
            } else {
                None
            },
        }
    }
}

/// The edges with one more relation between two names.
pub open spec fn with_edge(edges: Seq<DependencyEdgeView>, from: Seq<char>, to: Seq<char>) -> Seq<DependencyEdgeView> {
    match edge_between(edges, from, to) {
        Some(i) => edges.update(
            i,
            DependencyEdgeView { from, to, relation_count: (edges[i].relation_count + 1) as usize },
        ),
        None => edges.push(DependencyEdgeView { from, to, relation_count: 1 }),
    }
}

pub proof fn lemma_edge_between(edges: Seq<DependencyEdgeView>, from: Seq<char>, to: Seq<char>)
    ensures
        edge_between(edges, from, to) matches Some(i) ==> 0 <= i < edges.len() && edges[i].from == from && edges[i].to
            == to,
    decreases edges.len(),
{
    if edges.len() > 0 {
        lemma_edge_between(edges.drop_last(), from, to);
    }
}

proof fn lemma_edge_prefix(edges: Seq<DependencyEdgeView>, from: Seq<char>, to: Seq<char>, i: int)
    requires
        0 <= i <= edges.len(),
        edge_between(edges.take(i), from, to) is Some,
    ensures
        edge_between(edges, from, to) == edge_between(edges.take(i), from, to),
    decreases edges.len() - i,
{
    if i < edges.len() {
        assert(edges.take(i + 1).drop_last() =~= edges.take(i));
        lemma_edge_prefix(edges, from, to, i + 1);
    } else {
        assert(edges.take(i) =~= edges);
    }
}

/// No edge counts more than `n` relations.
spec fn edges_within(edges: Seq<DependencyEdgeView>, n: nat) -> bool {
    forall|i: int| 0 <= i < edges.len() ==> (#[trigger] edges[i]).relation_count <= n
}

spec fn edge_views(v: Seq<DependencyEdge>) -> Seq<DependencyEdgeView> {
    v.map_values(|x: DependencyEdge| x@)
}

spec fn node_views(v: Seq<DependencyNode>) -> Seq<DependencyNodeView> {
    v.map_values(|x: DependencyNode| x@)
}

fn count_edge(edges: &mut Vec<DependencyEdge>, from: &str, to: &str, Ghost(n): Ghost<nat>)
    requires
        edges_within(edge_views(old(edges)@), n),
        n < usize::MAX,
    ensures
        edge_views(final(edges)@) == with_edge(edge_views(old(edges)@), from@, to@),
        edges_within(edge_views(final(edges)@), n + 1),
{
    let ghost all = edge_views(edges@);
    proof {
        lemma_edge_between(all, from@, to@);
    }
    let mut i: usize = 0;
    while i < edges.len()
        invariant
            i <= edges@.len(),
            all == edge_views(edges@),
            all == edge_views(old(edges)@),
            edges_within(all, n),
            n < usize::MAX,
            edge_between(all.take(i as int), from@, to@) is None,
        decreases edges.len() - i,
    {
        assert(all[i as int] == edges@[i as int]@);
        assert(all.take(i + 1).drop_last() =~= all.take(i as int));
        if same(edges[i].from.as_str(), from) && same(edges[i].to.as_str(), to) {
            proof {
                lemma_edge_prefix(all, from@, to@, i + 1);
            }
            let count: usize = edges[i].relation_count;
            let item = DependencyEdge { from: from.to_owned(), to: to.to_owned(), relation_count: count + 1 };
            edges.set(i, item);
            assert(edge_views(edges@) =~= with_edge(all, from@, to@));
            return ;
        }
        i = i + 1;
    }
    assert(all.take(i as int) =~= all);
    let item = DependencyEdge { from: from.to_owned(), to: to.to_owned(), relation_count: 1 };
    edges.push(item);
    assert(edge_views(edges@) =~= with_edge(all, from@, to@));
}

/// Order of edges: most relations first.
pub open spec fn by_relations() -> spec_fn(DependencyEdgeView, DependencyEdgeView) -> bool {
    |a: DependencyEdgeView, b: DependencyEdgeView| a.relation_count >= b.relation_count
}

fn sort_edges(edges: Vec<DependencyEdge>) -> (r: Vec<DependencyEdge>)
    ensures
        edge_views(r@) == stable_sorted(edge_views(edges@), by_relations()),
{
    let ghost le = |a: DependencyEdge, b: DependencyEdge| by_relations()(a@, b@);
    let compare = |a: &DependencyEdge, b: &DependencyEdge| -> (t: bool)
        ensures
            t == (a@.relation_count >= b@.relation_count),
        { a.relation_count >= b.relation_count };
    proof {
        lemma_sorted_map(edges@, |x: DependencyEdge| x@, le, by_relations());
    }
    sort_stable(edges, &compare, Ghost(le))
}

/// The package of each cell that has one.
pub open spec fn packages_of_cells(entities: Seq<EntityView>) -> Seq<(Seq<char>, Seq<char>)>
    decreases entities.len(),
{
    if entities.len() == 0 {
        Seq::empty()
    } else {
        let before = packages_of_cells(entities.drop_last());
        let e = entities.last();
        if package_of(e.fqn).len() == 0 {
            before
        } else {
            with_entry(before, e.cell_id, package_of(e.fqn))
        }
    }
}

/// How many entities each package holds.
pub open spec fn package_sizes(entities: Seq<EntityView>) -> Seq<(Seq<char>, usize)>
    decreases entities.len(),
{
    if entities.len() == 0 {
        Seq::empty()
    } else {
        let before = package_sizes(entities.drop_last());
        let e = entities.last();
        if package_of(e.fqn).len() == 0 {
            before
        } else {
            counted(before, package_of(e.fqn))
        }
    }
}

/// The edges between different packages; containment does not count.
pub open spec fn package_edges(links: Seq<LinkView>, packages: Seq<(Seq<char>, Seq<char>)>) -> Seq<DependencyEdgeView>
    decreases links.len(),
{
    if links.len() == 0 {
        Seq::empty()
    } else {
        let before = package_edges(links.drop_last(), packages);
        let l = links.last();
        match (lookup(packages, l.from), lookup(packages, l.to)) {
            (Some(from), Some(to)) => if l.relation != "java.contained_in"@ && from != to {
                with_edge(before, from, to)
            } else {
                before
            },
            _ => before,
        }
    }
}

/// Package dependencies of a space.
pub open spec fn package_graph(space: SpaceView) -> DependencyResultView {
    DependencyResultView {
        scope: "package"@,
        nodes: package_sizes(space.entities).map_values(
            |e: (Seq<char>, usize)| DependencyNodeView { name: e.0, entity_count: e.1 },
        ),
        edges: stable_sorted(package_edges(space.links, packages_of_cells(space.entities)), by_relations()),
    }
}

pub fn package_dependencies(space_data: &SpaceData) -> (r: DependencyResult)
    ensures
        r@ == package_graph(space_data@),
{
    let ghost space = space_data@;
    let mut cell_packages: TextMap<String> = TextMap::new();
    let mut sizes: TextMap<usize> = TextMap::new();
    let mut i: usize = 0;
    assert(index_view(cell_packages) =~= Seq::empty());
    while i < space_data.entities.len()
        invariant
            i <= space_data.entities@.len(),
            space == space_data@,
            index_view(cell_packages) == packages_of_cells(space.entities.take(i as int)),
            sizes.entries() == package_sizes(space.entities.take(i as int)),
            counts_within(sizes.entries(), i as nat),
        decreases space_data.entities.len() - i,
    {
        let e = &space_data.entities[i];
        assert(space.entities[i as int] == e@);
        assert(space.entities.take(i + 1).drop_last() =~= space.entities.take(i as int));
        let package = package_name(e.fqn.as_str());
        if !package.as_str().is_empty() {
            proof {
                lemma_counted_within(sizes.entries(), package@, i as nat);
            }
            put_entry(&mut cell_packages, e.cell_id.clone(), package.clone());
            count_name(&mut sizes, package);
        }
        i = i + 1;
    }
    assert(space.entities.take(i as int) =~= space.entities);
    let ghost packages = packages_of_cells(space.entities);
    let mut edges: Vec<DependencyEdge> = Vec::new();
    let mut k: usize = 0;
    assert(edge_views(edges@) =~= package_edges(space.links.take(0), packages));
    while k < space_data.incidences.len()
        invariant
            k <= space_data.incidences@.len(),
            space == space_data@,
            packages == index_view(cell_packages),
            edge_views(edges@) == package_edges(space.links.take(k as int), packages),
            edges_within(edge_views(edges@), k as nat),
        decreases space_data.incidences.len() - k,
    {
        let l = &space_data.incidences[k];
        assert(space.links[k as int] == l@);
        assert(space.links.take(k + 1).drop_last() =~= space.links.take(k as int));
        if !same(l.relation_type.as_str(), "java.contained_in") {
            match (
                entry_of(&cell_packages, l.from_cell_id.as_str()),
                entry_of(&cell_packages, l.to_cell_id.as_str()),
            ) {
                (Some(from), Some(to)) => {
                    if !same(from.as_str(), to.as_str()) {
                        count_edge(&mut edges, from.as_str(), to.as_str(), Ghost(k as nat));
                    }
                },
                _ => {},
            }
        }
        k = k + 1;
    }
    assert(space.links.take(k as int) =~= space.links);
    let ghost es = sizes.entries();
    let ghost expected = es.map_values(|e: (Seq<char>, usize)| DependencyNodeView { name: e.0, entity_count: e.1 });
    let mut nodes: Vec<DependencyNode> = Vec::new();
    let n: usize = sizes.len();
    let mut j: usize = 0;
    while j < n
        invariant
            j <= n == es.len(),
            es == sizes.entries(),
            expected == es.map_values(|e: (Seq<char>, usize)| DependencyNodeView { name: e.0, entity_count: e.1 }),
            node_views(nodes@) == expected.take(j as int),
        decreases n - j,
    {
        let item = DependencyNode { name: sizes.key_at(j).clone(), entity_count: *sizes.value_at(j) };
        let ghost before = nodes@;
        nodes.push(item);
        j = j + 1;
        assert(node_views(nodes@) =~= node_views(before).push(item@));
        assert(node_views(nodes@) =~= expected.take(j as int));
    }
    assert(expected.take(j as int) =~= expected);
    DependencyResult { scope: "package".to_owned(), nodes, edges: sort_edges(edges) }
}

/// A kind of entity that class names stand for.
pub open spec fn is_class_kind(kind: JavaEntityType) -> bool {
    kind == JavaEntityType::Class || kind == JavaEntityType::Interface || kind == JavaEntityType::Enum || kind
        == JavaEntityType::Record || kind == JavaEntityType::Annotation
}

/// Some class has the qualified name, given in lower case.
pub open spec fn is_qualified(entities: Seq<EntityView>, class_lower: Seq<char>) -> bool {
    exists|i: int|
        0 <= i < entities.len() && is_class_kind((#[trigger] entities[i]).entity_type) && lowercase(entities[i].fqn)
            == class_lower
}

/// The first class with the simple name, given in lower case.
pub open spec fn class_called(entities: Seq<EntityView>, class_lower: Seq<char>) -> Option<int>
    decreases entities.len(),
{
    if entities.len() == 0 {
        None
    } else {
        match class_called(entities.drop_last(), class_lower) {
            Some(i) => Some(i),
            None => if is_class_kind(entities.last().entity_type) && lowercase(last_segment(entities.last().fqn))
                == class_lower {
                Some(entities.len() - 1)
            } else {
                None
            },
        }
    }
}

/// The class that a name means where it is not a qualified one: the first
/// with that simple name.
pub open spec fn meant_class(entities: Seq<EntityView>, class_lower: Seq<char>) -> Option<Seq<char>> {
    if is_qualified(entities, class_lower) {
        None
    } else {
        match class_called(entities, class_lower) {
            Some(i) => Some(entities[i].fqn),
            None => None,
        }
    }
}

proof fn lemma_class_called(entities: Seq<EntityView>, class_lower: Seq<char>)
    ensures
        class_called(entities, class_lower) matches Some(i) ==> 0 <= i < entities.len() && is_class_kind(
            entities[i].entity_type,
        ) && lowercase(last_segment(entities[i].fqn)) == class_lower,
    decreases entities.len(),
{
    if entities.len() > 0 {
        lemma_class_called(entities.drop_last(), class_lower);
    }
}

/// The cells of the entities whose lower-case name starts with the lower-case class name.
pub open spec fn cells_of_class(entities: Seq<EntityView>, class_lower: Seq<char>) -> Seq<Seq<char>>
    decreases entities.len(),
{
    if entities.len() == 0 {
        Seq::empty()
    } else {
        let before = cells_of_class(entities.drop_last(), class_lower);
        let e = entities.last();
        if begins(lowercase(e.fqn), class_lower) && !before.contains(e.cell_id) {
            before.push(e.cell_id)
        } else {
            before
        }
    }
}

/// The class that a cell belongs to.
pub open spec fn class_of_cell(entities: Seq<EntityView>, cell_id: Seq<char>) -> Option<Seq<char>> {
    match entity_with(entities, cell_id) {
        Some(i) => Some(class_of(entities[i].fqn)),
        None => None,
    }
}

/// The edges and the classes met so far.
#[verifier::ext_equal]
pub struct ClassGraph {
    pub edges: Seq<DependencyEdgeView>,
    pub classes: Seq<Seq<char>>,
}

pub open spec fn with_class(classes: Seq<Seq<char>>, name: Seq<char>) -> Seq<Seq<char>> {
    if classes.contains(name) {
        classes
    } else {
        classes.push(name)
    }
}

/// The relations that leave the class or lead into it from other classes.
pub open spec fn class_edges(
    links: Seq<LinkView>,
    entities: Seq<EntityView>,
    cells: Seq<Seq<char>>,
    class_fqn: Seq<char>,
) -> ClassGraph
    decreases links.len(),
{
    if links.len() == 0 {
        ClassGraph { edges: Seq::empty(), classes: seq![class_fqn] }
    } else {
        let before = class_edges(links.drop_last(), entities, cells, class_fqn);
        let l = links.last();
        if l.relation == "java.contained_in"@ {
            before
        } else if cells.contains(l.from) {
            match class_of_cell(entities, l.to) {
                Some(other) => if other != class_fqn {
                    ClassGraph {
                        edges: with_edge(before.edges, class_fqn, other),
                        classes: with_class(before.classes, other),
                    }
                } else {
                    before
                },
                None => before,
            }
        } else if cells.contains(l.to) {
            match class_of_cell(entities, l.from) {
                Some(other) => if other != class_fqn {
                    ClassGraph {
                        edges: with_edge(before.edges, other, class_fqn),
                        classes: with_class(before.classes, other),
                    }
                } else {
                    before
                },
                None => before,
            }
        } else {
            before
        }
    }
}

/// How many entities have a name that starts with the given one.
pub open spec fn entities_under(entities: Seq<EntityView>, name: Seq<char>) -> nat
    decreases entities.len(),
{
    if entities.len() == 0 {
        0
    } else {
        entities_under(entities.drop_last(), name) + if begins(entities.last().fqn, name) {
            1nat
        } else {
            0nat
        }
    }
}

/// The dependencies of a class, given in lower case too, that was asked for
/// under some name.
pub open spec fn centred_graph(
    space: SpaceView,
    asked: Seq<char>,
    class_fqn: Seq<char>,
    class_lower: Seq<char>,
) -> Result<DependencyResultView, Seq<char>> {
    let cells = cells_of_class(space.entities, class_lower);
    if cells.len() == 0 {
        Err("Class not found: "@ + asked)
    } else {
        let g = class_edges(space.links, space.entities, cells, class_fqn);
        Ok(
            DependencyResultView {
                scope: "class:"@ + asked,
                nodes: g.classes.map_values(
                    |name: Seq<char>|
                        DependencyNodeView { name, entity_count: entities_under(space.entities, name) as usize },
                ),
                edges: stable_sorted(g.edges, by_relations()),
            },
        )
    }
}

/// The dependencies of the class that a qualified or simple name means; the
/// name is given in lower case too.
pub open spec fn class_graph(space: SpaceView, class_name: Seq<char>, class_lower: Seq<char>) -> Result<
    DependencyResultView,
    Seq<char>,
> {
    match meant_class(space.entities, class_lower) {
        Some(fqn) => centred_graph(space, class_name, fqn, lowercase(fqn)),
        None => centred_graph(space, class_name, class_name, class_lower),
    }
}

pub open spec fn dependency_result(r: Result<DependencyResult, String>) -> Result<DependencyResultView, Seq<char>> {
    match r {
        Ok(d) => Ok(d@),
        Err(e) => Err(e@),
    }
}

fn class_cells(entities: &Vec<EntityRecord>, class_lower: &str) -> (r: TextSet)
    ensures
        r.texts() == cells_of_class(entity_views(entities@), class_lower@),
{
    let ghost all = entity_views(entities@);
    let mut r = TextSet::new();
    let mut i: usize = 0;
    while i < entities.len()
        invariant
            i <= entities@.len(),
            all == entity_views(entities@),
            r.texts() == cells_of_class(all.take(i as int), class_lower@),
        decreases entities.len() - i,
    {
        assert(all[i as int] == entities@[i as int]@);
        assert(all.take(i + 1).drop_last() =~= all.take(i as int));
        if starts_with(chars_of(entities[i].fqn.as_str().to_lowercase().as_str()).as_slice(), class_lower) {
            r.add_text(entities[i].cell_id.clone());
        }
        i = i + 1;
    }
    assert(all.take(i as int) =~= all);
    r
}

fn has_class_kind(kind: JavaEntityType) -> (r: bool)
    ensures
        r == is_class_kind(kind),
{
    kind == JavaEntityType::Class || kind == JavaEntityType::Interface || kind == JavaEntityType::Enum || kind
        == JavaEntityType::Record || kind == JavaEntityType::Annotation
}

/// The qualified name of the class that a name means where it is not a
/// qualified one.
fn find_meant(entities: &Vec<EntityRecord>, class_lower: &str) -> (r: Option<String>)
    ensures
        crate::lines::opt_text(r) == meant_class(entity_views(entities@), class_lower@),
{
    let ghost all = entity_views(entities@);
    let mut found: Option<usize> = None;
    let mut i: usize = 0;
    while i < entities.len()
        invariant
            i <= entities@.len(),
            all == entity_views(entities@),
            forall|k: int|
                0 <= k < i ==> !(is_class_kind((#[trigger] all[k]).entity_type) && lowercase(all[k].fqn)
                    == class_lower@),
            match found {
                Some(k) => k < i && class_called(all.take(i as int), class_lower@) == Some(k as int),
                None => class_called(all.take(i as int), class_lower@) is None,
            },
        decreases entities.len() - i,
    {
        let e = &entities[i];
        assert(all[i as int] == e@);
        assert(all.take(i + 1).drop_last() =~= all.take(i as int));
        if has_class_kind(e.entity_type) {
            if same(e.fqn.as_str().to_lowercase().as_str(), class_lower) {
                assert(is_qualified(all, class_lower@));
                return None;
            }
            let simple = segment_after_dots(chars_of(e.fqn.as_str()).as_slice());
            if found.is_none() && same(simple.as_str().to_lowercase().as_str(), class_lower) {
                found = Some(i);
            }
        }
        i = i + 1;
    }
    assert(all.take(i as int) =~= all);
    assert(!is_qualified(all, class_lower@));
    match found {
        Some(k) => {
            assert(all[k as int] == entities@[k as int]@);
            Some(entities[k].fqn.clone())
        },
        None => None,
    }
}

fn find_class(entities: &Vec<EntityRecord>, cell_id: &str) -> (r: Option<String>)
    ensures
        crate::lines::opt_text(r) == class_of_cell(entity_views(entities@), cell_id@),
{
    match find_entity(entities, cell_id) {
        Some(i) => {
            assert(entity_views(entities@)[i as int] == entities@[i as int]@);
            Some(class_name(entities[i].fqn.as_str()))
        },
        None => None,
    }
}

fn count_under(entities: &Vec<EntityRecord>, name: &str) -> (r: usize)
    ensures
        r == entities_under(entity_views(entities@), name@),
{
    let ghost all = entity_views(entities@);
    let mut n: usize = 0;
    let mut i: usize = 0;
    while i < entities.len()
        invariant
            i <= entities@.len(),
            n <= i,
            all == entity_views(entities@),
            n == entities_under(all.take(i as int), name@),
        decreases entities.len() - i,
    {
        assert(all[i as int] == entities@[i as int]@);
        assert(all.take(i + 1).drop_last() =~= all.take(i as int));
        if starts_with(chars_of(entities[i].fqn.as_str()).as_slice(), name) {
            n = n + 1;
        }
        i = i + 1;
    }
    assert(all.take(i as int) =~= all);
    n
}

/// The dependencies of a class that was asked for under some name.
fn graph_around(space_data: &SpaceData, asked: &str, class_fqn: &str, class_lower: &str) -> (r: Result<
    DependencyResult,
    String,
>)
    ensures
        dependency_result(r) == centred_graph(space_data@, asked@, class_fqn@, class_lower@),
{
    let ghost space = space_data@;
    let cells = class_cells(&space_data.entities, class_lower);
    if cells.len() == 0 {
        let mut reason = "Class not found: ".to_owned();
        reason.append(asked);
        return Err(reason);
    }
    let mut edges: Vec<DependencyEdge> = Vec::new();
    let mut classes = TextSet::new();
    classes.add_text(class_fqn.to_owned());
    let mut k: usize = 0;
    proof {
        assert(edge_views(edges@) =~= Seq::empty());
        assert(classes.texts() =~= seq![class_fqn@]);
    }
    while k < space_data.incidences.len()
        invariant
            k <= space_data.incidences@.len(),
            space == space_data@,
            cells.texts() == cells_of_class(space.entities, class_lower@),
            class_edges(space.links.take(k as int), space.entities, cells.texts(), class_fqn@) == (ClassGraph {
                edges: edge_views(edges@),
                classes: classes.texts(),
            }),
            edges_within(edge_views(edges@), k as nat),
        decreases space_data.incidences.len() - k,
    {
        let l = &space_data.incidences[k];
        assert(space.links[k as int] == l@);
        assert(space.links.take(k + 1).drop_last() =~= space.links.take(k as int));
        if !same(l.relation_type.as_str(), "java.contained_in") {
            if cells.has(l.from_cell_id.as_str()) {
                match find_class(&space_data.entities, l.to_cell_id.as_str()) {
                    Some(other) => {
                        if !same(other.as_str(), class_fqn) {
                            count_edge(&mut edges, class_fqn, other.as_str(), Ghost(k as nat));
                            classes.add_text(other);
                        }
                    },
                    None => {},
                }
            } else if cells.has(l.to_cell_id.as_str()) {
                match find_class(&space_data.entities, l.from_cell_id.as_str()) {
                    Some(other) => {
                        if !same(other.as_str(), class_fqn) {
                            count_edge(&mut edges, other.as_str(), class_fqn, Ghost(k as nat));
                            classes.add_text(other);
                        }
                    },
                    None => {},
                }
            }
        }
        k = k + 1;
    }
    assert(space.links.take(k as int) =~= space.links);
    let ghost names = classes.texts();
    let ghost expected = names.map_values(
        |name: Seq<char>| DependencyNodeView { name, entity_count: entities_under(space.entities, name) as usize },
    );
    let mut nodes: Vec<DependencyNode> = Vec::new();
    let n: usize = classes.len();
    let mut j: usize = 0;
    while j < n
        invariant
            j <= n == names.len(),
            names == classes.texts(),
            space == space_data@,
            expected == names.map_values(
                |name: Seq<char>|
                    DependencyNodeView { name, entity_count: entities_under(space.entities, name) as usize },
            ),
            node_views(nodes@) == expected.take(j as int),
        decreases n - j,
    {
        let name = classes.text_at(j);
        let item = DependencyNode {
            name: name.clone(),
            entity_count: count_under(&space_data.entities, name.as_str()),
        };
        let ghost before = nodes@;
        nodes.push(item);
        j = j + 1;
        assert(node_views(nodes@) =~= node_views(before).push(item@));
        assert(node_views(nodes@) =~= expected.take(j as int));
    }
    assert(expected.take(j as int) =~= expected);
    let mut scope = "class:".to_owned();
    scope.append(asked);
    Ok(DependencyResult { scope, nodes, edges: sort_edges(edges) })
}

/// Class dependencies with the class name in lower case at hand.
pub fn class_dependencies_lower(space_data: &SpaceData, class_name: &str, class_lower: &str) -> (r: Result<
    DependencyResult,
    String,
>)
    ensures
        dependency_result(r) == class_graph(space_data@, class_name@, class_lower@),
{
    match find_meant(&space_data.entities, class_lower) {
        Some(fqn) => graph_around(space_data, class_name, fqn.as_str(), fqn.as_str().to_lowercase().as_str()),
        None => graph_around(space_data, class_name, class_name, class_lower),
    }
}

/// What a class, given by its qualified or simple name ignoring case, depends
/// on and what depends on it.
pub fn class_dependencies(space_data: &SpaceData, class_name: &str) -> (r: Result<DependencyResult, String>)
    ensures
        dependency_result(r) == class_graph(space_data@, class_name@, lowercase(class_name@)),
{
    let lower = class_name.to_lowercase();
    class_dependencies_lower(space_data, class_name, lower.as_str())
}

proof fn lemma_class_has_cells(entities: Seq<EntityView>, class_lower: Seq<char>, i: int)
    requires
        0 <= i < entities.len(),
        lowercase(entities[i].fqn) == class_lower,
    ensures
        cells_of_class(entities, class_lower).len() > 0,
    decreases entities.len(),
{
    if i < entities.len() - 1 {
        lemma_class_has_cells(entities.drop_last(), class_lower, i);
    } else {
        let before = cells_of_class(entities.drop_last(), class_lower);
        assert(class_lower.take(class_lower.len() as int) =~= class_lower);
        assert(begins(class_lower, class_lower));
        if before.contains(entities.last().cell_id) {
            assert(before.len() > 0);
        }
    }
}

/// A simple class name is answered as the qualified name of the class that it
/// means, but for the name in the scope; neither is refused.
pub proof fn law_simple_class_name(space: SpaceView, name: Seq<char>)
    requires
        meant_class(space.entities, lowercase(name)) is Some,
    ensures
        ({
            let fqn = meant_class(space.entities, lowercase(name))->0;
            match (class_graph(space, name, lowercase(name)), class_graph(space, fqn, lowercase(fqn))) {
                (Ok(a), Ok(b)) => a.nodes == b.nodes && a.edges == b.edges,
                _ => false,
            }
        }),
{
    lemma_class_called(space.entities, lowercase(name));
    let i = class_called(space.entities, lowercase(name))->0;
    let fqn = space.entities[i].fqn;
    assert(is_qualified(space.entities, lowercase(fqn)));
    lemma_class_has_cells(space.entities, lowercase(fqn), i);
}

} // verus!
