//! Dependencies and overviews count what is there.

use vstd::prelude::*;

use crate::lines::begins;
use crate::model::entity::JavaEntityType;
use crate::model::graph::{CellView, LinkView};
use crate::model::space_data::{EntityView, SpaceView};
use crate::order::{lemma_stable_sorted, lemma_stable_sorted_contains, total_preorder};
use crate::query::dependencies::{
    by_relations, cells_of_class, centred_graph, class_edges, class_of_cell, edge_between, entities_under,
    package_edges, package_graph, package_sizes, packages_of_cells, with_edge, DependencyEdgeView,
};
use crate::query::names::{class_of, counted, package_of, tally};
use crate::query::overview::{
    by_count, by_size, cell_types, counts_at, files_of, named_packages, overview_of, package_of_entity, packages_in,
    relation_types, type_counts, with_kind, PackageOverviewView, TypeCountView,
};
use crate::seqs::{lemma_filter_contains, lemma_push_contains};
use crate::text::{is_upper, joined, lowercase};
use crate::text_laws::{are_free_of, law_pieces_of_joined};
use crate::text_map::{key_position, lemma_key_position, lemma_other_key, lemma_with_entry, lookup, with_entry};

verus! {

/// The number of elements that pass.
pub open spec fn number<A>(s: Seq<A>, p: spec_fn(A) -> bool) -> nat {
    s.filter(p).len()
}

pub proof fn lemma_number<A>(s: Seq<A>, p: spec_fn(A) -> bool)
    ensures
        s.len() == 0 ==> number(s, p) == 0,
        s.len() > 0 ==> number(s, p) == number(s.drop_last(), p) + if p(s.last()) {
            1nat
        } else {
            0nat
        },
        number(s, p) <= s.len(),
    decreases s.len(),
{
    reveal(Seq::filter);
    lemma_filter_contains(s, p);
}

proof fn lemma_entry<V>(map: Seq<(Seq<char>, V)>, key: Seq<char>, value: V, name: Seq<char>)
    ensures
        lookup(with_entry(map, key, value), name) == if name == key {
            Some(value)
        } else {
            lookup(map, name)
        },
{
    if name == key {
        lemma_with_entry(map, key, value);
    } else {
        lemma_other_key(map, key, value, name);
    }
}

/// What a package depends on: a relation other than containment leads from it
/// to another package.
pub open spec fn crosses(packages: Seq<(Seq<char>, Seq<char>)>, l: LinkView, from: Seq<char>, to: Seq<char>) -> bool {
    &&& l.relation != "java.contained_in"@
    &&& lookup(packages, l.from) == Some(from)
    &&& lookup(packages, l.to) == Some(to)
    &&& from != to
}

proof fn lemma_edge_between(edges: Seq<DependencyEdgeView>, from: Seq<char>, to: Seq<char>)
    ensures
        match edge_between(edges, from, to) {
            Some(i) => 0 <= i < edges.len() && edges[i].from == from && edges[i].to == to && forall|j: int|
                0 <= j < i ==> (#[trigger] edges[j]).from != from || edges[j].to != to,
            None => forall|j: int| 0 <= j < edges.len() ==> (#[trigger] edges[j]).from != from || edges[j].to != to,
        },
    decreases edges.len(),
{
    if edges.len() > 0 {
        let front = edges.drop_last();
        lemma_edge_between(front, from, to);
        assert forall|j: int| 0 <= j < front.len() implies #[trigger] edges[j] == front[j] by {}
    }
}

/// The edges say how often each of them was added, and each is there once.
pub open spec fn weighs(
    edges: Seq<DependencyEdgeView>,
    links: Seq<LinkView>,
    p: spec_fn(LinkView, Seq<char>, Seq<char>) -> bool,
) -> bool {
    &&& forall|i: int|
        0 <= i < edges.len() ==> (#[trigger] edges[i]).relation_count == number(
            links,
            |l: LinkView| p(l, edges[i].from, edges[i].to),
        ) && edges[i].relation_count > 0
    &&& forall|from: Seq<char>, to: Seq<char>|
        number(links, |l: LinkView| p(l, from, to)) > 0 ==> #[trigger] has_edge(edges, from, to)
    &&& forall|i: int, j: int|
        0 <= i < j < edges.len() ==> (#[trigger] edges[i]).from != (#[trigger] edges[j]).from || edges[i].to
            != edges[j].to
}

pub open spec fn has_edge(edges: Seq<DependencyEdgeView>, from: Seq<char>, to: Seq<char>) -> bool {
    exists|i: int| 0 <= i < edges.len() && (#[trigger] edges[i]).from == from && edges[i].to == to
}

proof fn lemma_weighs_on(
    edges: Seq<DependencyEdgeView>,
    links: Seq<LinkView>,
    p: spec_fn(LinkView, Seq<char>, Seq<char>) -> bool,
    edge: Option<(Seq<char>, Seq<char>)>,
    after: Seq<DependencyEdgeView>,
)
    requires
        links.len() > 0,
        links.len() <= usize::MAX,
        weighs(edges, links.drop_last(), p),
        forall|from: Seq<char>, to: Seq<char>| #[trigger] p(links.last(), from, to) <==> edge == Some((from, to)),
        after == match edge {
            Some((from, to)) => with_edge(edges, from, to),
            None => edges,
        },
    ensures
        weighs(after, links, p),
{
    let front = links.drop_last();
    let l = links.last();
    assert forall|from: Seq<char>, to: Seq<char>| number(links, |l: LinkView| p(l, from, to)) == number(
        front,
        |l: LinkView| p(l, from, to),
    ) + if #[trigger] p(l, from, to) {
        1nat
    } else {
        0nat
    } by {
        lemma_number(links, |l: LinkView| p(l, from, to));
    }
    if let Some((from, to)) = edge {
        lemma_edge_between(edges, from, to);
        lemma_number(front, |l: LinkView| p(l, from, to));
        assert(p(l, from, to));
        match edge_between(edges, from, to) {
            Some(k) => {
                assert(edges[k].relation_count == number(front, |l: LinkView| p(l, from, to)));
                assert(after[k].relation_count == edges[k].relation_count + 1);
            },
            None => {
                if number(front, |l: LinkView| p(l, from, to)) > 0 {
                    assert(has_edge(edges, from, to));
                }
                assert(number(front, |l: LinkView| p(l, from, to)) == 0);
                assert(after[edges.len() as int].relation_count == 1);
            },
        }
    }
    assert forall|i: int| 0 <= i < after.len() implies (#[trigger] after[i]).relation_count == number(
        links,
        |l: LinkView| p(l, after[i].from, after[i].to),
    ) && after[i].relation_count > 0 by {
        if i < edges.len() {
            assert(after[i].from == edges[i].from && after[i].to == edges[i].to);
            assert(edges[i].relation_count == number(front, |l: LinkView| p(l, edges[i].from, edges[i].to)));
            if p(l, edges[i].from, edges[i].to) {
                let k = edge_between(edges, edges[i].from, edges[i].to)->Some_0;
                assert(k == i);
            }
            assert(p(l, after[i].from, after[i].to) || true);
        } else {
            assert(p(l, after[i].from, after[i].to));
        }
    }
    assert forall|from: Seq<char>, to: Seq<char>|
        number(links, |l: LinkView| p(l, from, to)) > 0 implies #[trigger] has_edge(after, from, to) by {
        if p(l, from, to) {
            lemma_edge_between(edges, from, to);
            match edge_between(edges, from, to) {
                Some(k) => {
                    assert(after[k].from == from && after[k].to == to);
                },
                None => {
                    assert(after[edges.len() as int].from == from && after[edges.len() as int].to == to);
                },
            }
        } else {
            assert(has_edge(edges, from, to));
            let k = choose|k: int| 0 <= k < edges.len() && (#[trigger] edges[k]).from == from && edges[k].to == to;
            assert(after[k].from == from && after[k].to == to);
        }
    }
    assert forall|i: int, j: int| 0 <= i < j < after.len() implies (#[trigger] after[i]).from != (
    #[trigger] after[j]).from || after[i].to != after[j].to by {
        assert(after[i].from == edges[i].from && after[i].to == edges[i].to);
        if j < edges.len() {
            assert(after[j].from == edges[j].from && after[j].to == edges[j].to);
        } else {
            let (from, to) = edge->Some_0;
            assert(edge_between(edges, from, to) is None);
            assert(edges[i].from != from || edges[i].to != to);
        }
    }
}

proof fn lemma_weighs_none(
    edges: Seq<DependencyEdgeView>,
    links: Seq<LinkView>,
    p: spec_fn(LinkView, Seq<char>, Seq<char>) -> bool,
)
    requires
        edges.len() == 0,
        links.len() == 0,
    ensures
        weighs(edges, links, p),
{
    assert forall|from: Seq<char>, to: Seq<char>| number(links, |l: LinkView| p(l, from, to)) > 0 implies #[trigger] has_edge(
        edges,
        from,
        to,
    ) by {
        lemma_number(links, |l: LinkView| p(l, from, to));
    }
}

proof fn lemma_package_edges(links: Seq<LinkView>, packages: Seq<(Seq<char>, Seq<char>)>)
    requires
        links.len() <= usize::MAX,
    ensures
        weighs(
            package_edges(links, packages),
            links,
            |l: LinkView, from: Seq<char>, to: Seq<char>| crosses(packages, l, from, to),
        ),
    decreases links.len(),
{
    let p = |l: LinkView, from: Seq<char>, to: Seq<char>| crosses(packages, l, from, to);
    let all = package_edges(links, packages);
    if links.len() == 0 {
        lemma_weighs_none(all, links, p);
    } else {
        lemma_package_edges(links.drop_last(), packages);
        let before = package_edges(links.drop_last(), packages);
        let l = links.last();
        let edge = match (lookup(packages, l.from), lookup(packages, l.to)) {
            (Some(from), Some(to)) => if l.relation != "java.contained_in"@ && from != to {
                Some((from, to))
            } else {
                None
            },
            _ => None,
        };
        lemma_weighs_on(before, links, p, edge, all);
    }
}

/// The edges of the package graph are the pairs of packages that relations
/// other than containment lead between, each with the number of its relations.
pub proof fn law_package_edges(space: SpaceView, i: int, from: Seq<char>, to: Seq<char>)
    requires
        space.links.len() <= usize::MAX,
    ensures
        ({
            let edges = package_graph(space).edges;
            let packages = packages_of_cells(space.entities);
            let n = number(space.links, |l: LinkView| crosses(packages, l, from, to));
            &&& n > 0 ==> edges.contains(DependencyEdgeView { from, to, relation_count: n as usize })
            &&& 0 <= i < edges.len() && edges[i].from == from && edges[i].to == to ==> n > 0 && edges[i].relation_count
                == n
        }),
{
    let packages = packages_of_cells(space.entities);
    let p = |l: LinkView, from: Seq<char>, to: Seq<char>| crosses(packages, l, from, to);
    let all = package_edges(space.links, packages);
    lemma_package_edges(space.links, packages);
    lemma_stable_sorted_contains(all, by_relations());
    let edges = package_graph(space).edges;
    let q = |l: LinkView| crosses(packages, l, from, to);
    let r = |l: LinkView| p(l, from, to);
    assert(q =~= r);
    let n = number(space.links, q);
    lemma_number(space.links, q);
    if n > 0 {
        assert(has_edge(all, from, to));
        let k = choose|k: int| 0 <= k < all.len() && (#[trigger] all[k]).from == from && all[k].to == to;
        assert(all.contains(all[k]));
        assert(edges.contains(all[k]));
        assert(all[k] == (DependencyEdgeView { from, to, relation_count: n as usize }));
    }
    if 0 <= i < edges.len() && edges[i].from == from && edges[i].to == to {
        assert(edges.contains(edges[i]));
        assert(all.contains(edges[i]));
        let k = choose|k: int| 0 <= k < all.len() && all[k] == edges[i];
        assert(all[k].relation_count == number(space.links, |l: LinkView| p(l, all[k].from, all[k].to)));
    }
}

/// The package of a cell is that of its last entity with a package.
pub proof fn law_packages_of_cells(entities: Seq<EntityView>, id: Seq<char>)
    ensures
        match lookup(packages_of_cells(entities), id) {
            Some(name) => exists|i: int|
                0 <= i < entities.len() && (#[trigger] entities[i]).cell_id == id && package_of(entities[i].fqn)
                    == name && name.len() > 0,
            None => forall|i: int|
                0 <= i < entities.len() && (#[trigger] entities[i]).cell_id == id ==> package_of(entities[i].fqn).len()
                    == 0,
        },
    decreases entities.len(),
{
    if entities.len() == 0 {
        lemma_key_position(packages_of_cells(entities), id);
    } else {
        let front = entities.drop_last();
        let e = entities.last();
        law_packages_of_cells(front, id);
        lemma_entry(packages_of_cells(front), e.cell_id, package_of(e.fqn), id);
        assert forall|i: int| 0 <= i < front.len() implies #[trigger] entities[i] == front[i] by {}
        assert(entities[entities.len() - 1] == e);
        if let Some(name) = lookup(packages_of_cells(front), id) {
            let i = choose|i: int|
                0 <= i < front.len() && (#[trigger] front[i]).cell_id == id && package_of(front[i].fqn) == name
                    && name.len() > 0;
            assert(entities[i].cell_id == id);
        }
    }
}

proof fn lemma_counted(counts: Seq<(Seq<char>, usize)>, name: Seq<char>, x: Seq<char>)
    requires
        forall|i: int| 0 <= i < counts.len() ==> (#[trigger] counts[i]).1 < usize::MAX,
    ensures
        lookup(counted(counts, name), x) == if x == name {
            Some(
                (match lookup(counts, x) {
                    Some(n) => n,
                    None => 0,
                } + 1) as usize,
            )
        } else {
            lookup(counts, x)
        },
{
    lemma_entry(counts, name, (crate::query::names::count_of(counts, name) + 1) as usize, x);
}

/// Each size is the number of entities in the package.
pub open spec fn sizes_right(sizes: Seq<(Seq<char>, usize)>, entities: Seq<EntityView>) -> bool {
    forall|name: Seq<char>| #[trigger]
        lookup(sizes, name) == (if name.len() > 0 && number(entities, |e: EntityView| package_of(e.fqn) == name) > 0 {
            Some(number(entities, |e: EntityView| package_of(e.fqn) == name) as usize)
        } else {
            None
        })
}

proof fn lemma_small(sizes: Seq<(Seq<char>, usize)>, key: Seq<char>, value: usize, n: nat)
    requires
        forall|i: int| 0 <= i < sizes.len() ==> (#[trigger] sizes[i]).1 <= n,
        value <= n,
    ensures
        forall|i: int|
            0 <= i < with_entry(sizes, key, value).len() ==> (#[trigger] with_entry(sizes, key, value)[i]).1 <= n,
{
    lemma_key_position(sizes, key);
    let after = with_entry(sizes, key, value);
    assert forall|i: int| 0 <= i < after.len() implies (#[trigger] after[i]).1 <= n by {
        if i < sizes.len() && after[i].0 != key {
            assert(after[i] == sizes[i]);
        }
        if i < sizes.len() {
            assert(after[i] == sizes[i] || after[i] == (key, value));
        }
    }
}

proof fn lemma_package_sizes(entities: Seq<EntityView>)
    requires
        entities.len() <= usize::MAX,
    ensures
        sizes_right(package_sizes(entities), entities),
        forall|i: int|
            0 <= i < package_sizes(entities).len() ==> (#[trigger] package_sizes(entities)[i]).1 <= entities.len(),
    decreases entities.len(),
{
    let sizes = package_sizes(entities);
    if entities.len() == 0 {
        assert forall|name: Seq<char>| #[trigger] lookup(sizes, name) is None by {
            lemma_key_position(sizes, name);
        }
        assert forall|name: Seq<char>| #[trigger]
            lookup(sizes, name) == (if name.len() > 0 && number(entities, |e: EntityView| package_of(e.fqn) == name)
            > 0 {
            Some(number(entities, |e: EntityView| package_of(e.fqn) == name) as usize)
        } else {
            None
        }) by {
            lemma_number(entities, |e: EntityView| package_of(e.fqn) == name);
        }
    } else {
        let front = entities.drop_last();
        lemma_package_sizes(front);
        let before = package_sizes(front);
        let own = package_of(entities.last().fqn);
        assert forall|name: Seq<char>| #[trigger]
            lookup(sizes, name) == (if name.len() > 0 && number(entities, |e: EntityView| package_of(e.fqn) == name)
            > 0 {
            Some(number(entities, |e: EntityView| package_of(e.fqn) == name) as usize)
        } else {
            None
        }) by {
            lemma_number(entities, |e: EntityView| package_of(e.fqn) == name);
            lemma_number(front, |e: EntityView| package_of(e.fqn) == name);
            assert(lookup(before, name) == (if name.len() > 0 && number(
                front,
                |e: EntityView| package_of(e.fqn) == name,
            ) > 0 {
                Some(number(front, |e: EntityView| package_of(e.fqn) == name) as usize)
            } else {
                None
            }));
            if own.len() > 0 {
                assert forall|i: int| 0 <= i < before.len() implies (#[trigger] before[i]).1 < usize::MAX by {}
                lemma_counted(before, own, name);
            }
        }
        lemma_number(front, |e: EntityView| package_of(e.fqn) == own);
        assert(lookup(before, own) == lookup(before, own));
        if own.len() > 0 {
            lemma_small(
                before,
                own,
                (crate::query::names::count_of(before, own) + 1) as usize,
                entities.len(),
            );
        }
    }
}

/// The nodes of the package graph are the packages, each with the number of its
/// entities.
pub proof fn law_package_nodes(space: SpaceView, name: Seq<char>)
    requires
        space.entities.len() <= usize::MAX,
    ensures
        ({
            let nodes = package_graph(space).nodes;
            let n = number(space.entities, |e: EntityView| package_of(e.fqn) == name);
            &&& name.len() > 0 && n > 0 ==> exists|k: int|
                0 <= k < nodes.len() && (#[trigger] nodes[k]).name == name && nodes[k].entity_count == n
        }),
{
    let sizes = package_sizes(space.entities);
    let nodes = package_graph(space).nodes;
    lemma_package_sizes(space.entities);
    let n = number(space.entities, |e: EntityView| package_of(e.fqn) == name);
    lemma_number(space.entities, |e: EntityView| package_of(e.fqn) == name);
    lemma_key_position(sizes, name);
    if name.len() > 0 && n > 0 {
        assert(lookup(sizes, name) == Some(n as usize));
        let k = key_position(sizes, name)->Some_0;
        assert(sizes[k] == (name, n as usize));
        assert(nodes[k].name == name);
    }
}

proof fn lemma_tally(names: Seq<Seq<char>>, x: Seq<char>)
    requires
        names.len() <= usize::MAX,
    ensures
        lookup(tally(names), x) == (if number(names, |n: Seq<char>| n == x) > 0 {
            Some(number(names, |n: Seq<char>| n == x) as usize)
        } else {
            None
        }),
        forall|i: int| 0 <= i < tally(names).len() ==> (#[trigger] tally(names)[i]).1 <= names.len(),
        forall|i: int, j: int| 0 <= i < j < tally(names).len() ==> (#[trigger] tally(names)[i]).0 != (
        #[trigger] tally(names)[j]).0,
    decreases names.len(),
{
    lemma_number(names, |n: Seq<char>| n == x);
    if names.len() == 0 {
        lemma_key_position(tally(names), x);
    } else {
        let front = names.drop_last();
        lemma_tally(front, x);
        lemma_tally(front, names.last());
        let before = tally(front);
        lemma_number(front, |n: Seq<char>| n == x);
        lemma_number(front, |n: Seq<char>| n == names.last());
        lemma_counted(before, names.last(), x);
        lemma_key_position(before, names.last());
        lemma_small(
            before,
            names.last(),
            (crate::query::names::count_of(before, names.last()) + 1) as usize,
            names.len(),
        );
    }
}

/// The entities are counted by the types of their cells, and the relations by
/// their types: each type that occurs stands once, with how often it occurs,
/// the most frequent one first.
pub proof fn law_overview_counts(space: SpaceView, name: Seq<char>, i: int, j: int)
    requires
        space.cells.len() <= usize::MAX,
        space.links.len() <= usize::MAX,
    ensures
        ({
            let r = overview_of(space);
            let cells = number(space.cells, |c: CellView| c.cell_type == name);
            let links = number(space.links, |l: LinkView| l.relation == name);
            &&& r.total_entities == space.cells.len()
            &&& r.total_relations == space.links.len()
            &&& cells > 0 ==> r.entities_by_type.contains(TypeCountView { name, count: cells as usize })
            &&& links > 0 ==> r.relations_by_type.contains(TypeCountView { name, count: links as usize })
            &&& 0 <= i < r.entities_by_type.len() && r.entities_by_type[i].name == name
                ==> r.entities_by_type[i].count == cells && cells > 0
            &&& 0 <= i < r.relations_by_type.len() && r.relations_by_type[i].name == name
                ==> r.relations_by_type[i].count == links && links > 0
            &&& 0 <= i < j < r.entities_by_type.len() ==> r.entities_by_type[i].count >= r.entities_by_type[j].count
            &&& 0 <= i < j < r.relations_by_type.len() ==> r.relations_by_type[i].count >= r.relations_by_type[j].count
        }),
{
    lemma_type_counts(cell_types(space.cells), name, i, j);
    lemma_type_counts(relation_types(space.links), name, i, j);
    lemma_number_map(space.cells, |c: CellView| c.cell_type, name);
    lemma_number_map(space.links, |l: LinkView| l.relation, name);
    let p = |c: CellView| c.cell_type == name;
    let f = |c: CellView| c.cell_type;
    let q = |c: CellView| f(c) == name;
    assert(p =~= q);
    let g = |l: LinkView| l.relation;
    let a = |l: LinkView| l.relation == name;
    let b = |l: LinkView| g(l) == name;
    assert(a =~= b);
}

proof fn lemma_number_map<A>(s: Seq<A>, f: spec_fn(A) -> Seq<char>, name: Seq<char>)
    ensures
        number(s.map_values(f), |n: Seq<char>| n == name) == number(s, |x: A| f(x) == name),
    decreases s.len(),
{
    lemma_number(s, |x: A| f(x) == name);
    lemma_number(s.map_values(f), |n: Seq<char>| n == name);
    if s.len() > 0 {
        lemma_number_map(s.drop_last(), f, name);
        assert(s.map_values(f).drop_last() =~= s.drop_last().map_values(f));
    }
}

proof fn lemma_type_counts(names: Seq<Seq<char>>, name: Seq<char>, i: int, j: int)
    requires
        names.len() <= usize::MAX,
    ensures
        ({
            let list = type_counts(names);
            let n = number(names, |x: Seq<char>| x == name);
            &&& n > 0 ==> list.contains(TypeCountView { name, count: n as usize })
            &&& 0 <= i < list.len() && list[i].name == name ==> list[i].count == n && n > 0
            &&& 0 <= i < j < list.len() ==> list[i].count >= list[j].count
        }),
{
    let t = tally(names);
    let f = |e: (Seq<char>, usize)| TypeCountView { name: e.0, count: e.1 };
    let all = t.map_values(f);
    let le = by_count();
    let list = type_counts(names);
    assert(total_preorder(le));
    lemma_stable_sorted(all, le);
    lemma_stable_sorted_contains(all, le);
    lemma_tally(names, name);
    lemma_number(names, |x: Seq<char>| x == name);
    lemma_key_position(t, name);
    let n = number(names, |x: Seq<char>| x == name);
    if n > 0 {
        let k = key_position(t, name)->Some_0;
        assert(all[k] == (TypeCountView { name, count: n as usize }));
        assert(all.contains(all[k]));
    }
    if 0 <= i < list.len() && list[i].name == name {
        assert(list.contains(list[i]));
        assert(all.contains(list[i]));
        let k = choose|k: int| 0 <= k < all.len() && all[k] == list[i];
        assert(t[k].0 == name);
        let m = key_position(t, name)->Some_0;
        if m != k {
            assert(t[m].0 != t[k].0);
        }
    }
    if 0 <= i < j < list.len() {
        assert(le(list[i], list[j]));
    }
}

/// A part of a name that names a type: it starts with an upper-case letter.
pub open spec fn starts_upper(part: Seq<char>) -> bool {
    part.len() > 0 && is_upper(part[0])
}

/// The first part that names a type stands at `n`, if there is one.
pub open spec fn is_first_type(parts: Seq<Seq<char>>, n: int) -> bool {
    &&& 0 <= n <= parts.len()
    &&& forall|k: int| 0 <= k < n ==> !starts_upper(#[trigger] parts[k])
    &&& n < parts.len() ==> starts_upper(parts[n])
}

proof fn lemma_first_type(parts: Seq<Seq<char>>, i: int, n: int)
    requires
        0 <= i <= n,
        is_first_type(parts, n),
    ensures
        crate::query::names::first_type(parts, i) == n,
    decreases n - i,
{
    if i < n {
        assert(!starts_upper(parts[i]));
        lemma_first_type(parts, i + 1, n);
    }
}

/// The package of a qualified name is what stands before the first part that
/// names a type, and the class ends with that part.
pub proof fn law_names(parts: Seq<Seq<char>>, n: int)
    requires
        parts.len() > 0,
        are_free_of(parts, '.'),
        is_first_type(parts, n),
    ensures
        package_of(joined(parts, "."@)) == joined(parts.take(n), "."@),
        n < parts.len() ==> class_of(joined(parts, "."@)) == joined(parts.take(n + 1), "."@),
        n == parts.len() ==> class_of(joined(parts, "."@)) == joined(parts, "."@),
{
    reveal_strlit(".");
    assert("."@ =~= seq!['.']);
    law_pieces_of_joined(parts, '.');
    lemma_first_type(parts, 0, n);
}

/// A relation other than containment between a class and another one.
pub open spec fn touches(
    entities: Seq<EntityView>,
    cells: Seq<Seq<char>>,
    class: Seq<char>,
    l: LinkView,
    from: Seq<char>,
    to: Seq<char>,
) -> bool {
    &&& l.relation != "java.contained_in"@
    &&& from != to
    &&& if cells.contains(l.from) {
        from == class && class_of_cell(entities, l.to) == Some(to)
    } else {
        cells.contains(l.to) && to == class && class_of_cell(entities, l.from) == Some(from)
    }
}

proof fn lemma_class_edges(
    links: Seq<LinkView>,
    entities: Seq<EntityView>,
    cells: Seq<Seq<char>>,
    class: Seq<char>,
)
    requires
        links.len() <= usize::MAX,
    ensures
        weighs(
            class_edges(links, entities, cells, class).edges,
            links,
            |l: LinkView, from: Seq<char>, to: Seq<char>| touches(entities, cells, class, l, from, to),
        ),
        class_edges(links, entities, cells, class).classes.contains(class),
        forall|i: int|
            0 <= i < class_edges(links, entities, cells, class).edges.len() ==> class_edges(
                links,
                entities,
                cells,
                class,
            ).classes.contains((#[trigger] class_edges(links, entities, cells, class).edges[i]).from) && class_edges(
                links,
                entities,
                cells,
                class,
            ).classes.contains(class_edges(links, entities, cells, class).edges[i].to),
    decreases links.len(),
{
    let p = |l: LinkView, from: Seq<char>, to: Seq<char>| touches(entities, cells, class, l, from, to);
    let all = class_edges(links, entities, cells, class);
    if links.len() == 0 {
        lemma_weighs_none(all.edges, links, p);
        assert(all.classes[0] == class);
    } else {
        lemma_class_edges(links.drop_last(), entities, cells, class);
        let before = class_edges(links.drop_last(), entities, cells, class);
        let l = links.last();
        let edge = if l.relation == "java.contained_in"@ {
            None
        } else if cells.contains(l.from) {
            match class_of_cell(entities, l.to) {
                Some(other) => if other != class {
                    Some((class, other))
                } else {
                    None
                },
                None => None,
            }
        } else if cells.contains(l.to) {
            match class_of_cell(entities, l.from) {
                Some(other) => if other != class {
                    Some((other, class))
                } else {
                    None
                },
                None => None,
            }
        } else {
            None
        };
        lemma_weighs_on(before.edges, links, p, edge, all.edges);
        if let Some((from, to)) = edge {
            let other = if from == class {
                to
            } else {
                from
            };
            lemma_push_contains(before.classes, other);
            lemma_edge_between(before.edges, from, to);
            assert forall|i: int| 0 <= i < all.edges.len() implies all.classes.contains(
                (#[trigger] all.edges[i]).from,
            ) && all.classes.contains(all.edges[i].to) by {
                if i < before.edges.len() && all.edges[i] == before.edges[i] {
                    assert(before.classes.contains(before.edges[i].from));
                }
                if i < before.edges.len() {
                    assert(all.edges[i].from == before.edges[i].from && all.edges[i].to == before.edges[i].to);
                    assert(before.classes.contains(before.edges[i].from));
                }
            }
        }
    }
}

/// The edges around a class are the pairs of it and the classes that relations
/// other than containment lead to or come from, each with the number of its
/// relations; both ends of an edge are nodes, with the number of entities whose
/// names start with theirs.
pub proof fn law_class_edges(
    space: SpaceView,
    asked: Seq<char>,
    class: Seq<char>,
    class_lower: Seq<char>,
    i: int,
    from: Seq<char>,
    to: Seq<char>,
)
    requires
        space.links.len() <= usize::MAX,
        centred_graph(space, asked, class, class_lower) is Ok,
    ensures
        ({
            let g = centred_graph(space, asked, class, class_lower)->Ok_0;
            let cells = cells_of_class(space.entities, class_lower);
            let n = number(space.links, |l: LinkView| touches(space.entities, cells, class, l, from, to));
            &&& n > 0 ==> g.edges.contains(DependencyEdgeView { from, to, relation_count: n as usize })
            &&& 0 <= i < g.edges.len() && g.edges[i].from == from && g.edges[i].to == to ==> {
                &&& n > 0
                &&& g.edges[i].relation_count == n
                &&& exists|k: int| 0 <= k < g.nodes.len() && (#[trigger] g.nodes[k]).name == from
                &&& exists|k: int| 0 <= k < g.nodes.len() && (#[trigger] g.nodes[k]).name == to
            }
            &&& 0 <= i < g.nodes.len() ==> g.nodes[i].entity_count == number(
                space.entities,
                |e: EntityView| begins(e.fqn, g.nodes[i].name),
            ) as usize
        }),
{
    let g = centred_graph(space, asked, class, class_lower)->Ok_0;
    let cells = cells_of_class(space.entities, class_lower);
    let p = |l: LinkView, from: Seq<char>, to: Seq<char>| touches(space.entities, cells, class, l, from, to);
    let found = class_edges(space.links, space.entities, cells, class);
    let all = found.edges;
    lemma_class_edges(space.links, space.entities, cells, class);
    lemma_stable_sorted_contains(all, by_relations());
    let q = |l: LinkView| touches(space.entities, cells, class, l, from, to);
    let r = |l: LinkView| p(l, from, to);
    assert(q =~= r);
    let n = number(space.links, q);
    lemma_number(space.links, q);
    if n > 0 {
        assert(has_edge(all, from, to));
        let k = choose|k: int| 0 <= k < all.len() && (#[trigger] all[k]).from == from && all[k].to == to;
        assert(all.contains(all[k]));
        assert(g.edges.contains(all[k]));
        assert(all[k] == (DependencyEdgeView { from, to, relation_count: n as usize }));
    }
    if 0 <= i < g.edges.len() && g.edges[i].from == from && g.edges[i].to == to {
        assert(g.edges.contains(g.edges[i]));
        assert(all.contains(g.edges[i]));
        let k = choose|k: int| 0 <= k < all.len() && all[k] == g.edges[i];
        assert(all[k].relation_count == number(space.links, |l: LinkView| p(l, all[k].from, all[k].to)));
        assert(found.classes.contains(all[k].from));
        let a = choose|a: int| 0 <= a < found.classes.len() && found.classes[a] == from;
        assert(g.nodes[a].name == from);
        let b = choose|b: int| 0 <= b < found.classes.len() && found.classes[b] == to;
        assert(g.nodes[b].name == to);
    }
    if 0 <= i < g.nodes.len() {
        lemma_entities_under(space.entities, g.nodes[i].name);
    }
}

proof fn lemma_entities_under(entities: Seq<EntityView>, name: Seq<char>)
    ensures
        entities_under(entities, name) == number(entities, |e: EntityView| begins(e.fqn, name)),
    decreases entities.len(),
{
    lemma_number(entities, |e: EntityView| begins(e.fqn, name));
    if entities.len() > 0 {
        lemma_entities_under(entities.drop_last(), name);
    }
}

/// The cells of a class are those of the entities whose names start with its
/// name, letters of both cases counting as one.
pub proof fn law_cells_of_class(entities: Seq<EntityView>, class_lower: Seq<char>, id: Seq<char>)
    ensures
        cells_of_class(entities, class_lower).contains(id) <==> exists|i: int|
            0 <= i < entities.len() && (#[trigger] entities[i]).cell_id == id && begins(
                lowercase(entities[i].fqn),
                class_lower,
            ),
    decreases entities.len(),
{
    if entities.len() > 0 {
        let front = entities.drop_last();
        let e = entities.last();
        law_cells_of_class(front, class_lower, id);
        let before = cells_of_class(front, class_lower);
        lemma_push_contains(before, e.cell_id);
        assert forall|i: int| 0 <= i < front.len() implies #[trigger] entities[i] == front[i] by {}
        assert(entities[entities.len() - 1] == e);
        if before.contains(id) {
            let i = choose|i: int|
                0 <= i < front.len() && (#[trigger] front[i]).cell_id == id && begins(
                    lowercase(front[i].fqn),
                    class_lower,
                );
            assert(entities[i].cell_id == id);
        }
    }
}

/// The kinds of entities that a package is said to hold.
pub open spec fn counts_as(kind: JavaEntityType, column: int) -> bool {
    ||| column == 0 && (kind == JavaEntityType::Class || kind == JavaEntityType::Enum || kind
        == JavaEntityType::Record)
    ||| column == 1 && kind == JavaEntityType::Interface
    ||| column == 2 && (kind == JavaEntityType::Method || kind == JavaEntityType::Constructor)
    ||| column == 3 && kind == JavaEntityType::Field
}

/// The number of entities of a package in a column.
pub open spec fn held(entities: Seq<EntityView>, name: Seq<char>, column: int) -> nat {
    number(entities, |e: EntityView| package_of_entity(e.fqn) == name && counts_as(e.entity_type, column))
}

proof fn lemma_held(entities: Seq<EntityView>, name: Seq<char>, column: int)
    ensures
        entities.len() == 0 ==> held(entities, name, column) == 0,
        entities.len() > 0 ==> held(entities, name, column) == held(entities.drop_last(), name, column) + if (
        package_of_entity(entities.last().fqn) == name && counts_as(entities.last().entity_type, column)) {
            1nat
        } else {
            0nat
        },
        held(entities, name, column) <= entities.len(),
{
    lemma_number(
        entities,
        |e: EntityView| package_of_entity(e.fqn) == name && counts_as(e.entity_type, column),
    );
}

proof fn lemma_packages_in(entities: Seq<EntityView>, name: Seq<char>)
    requires
        entities.len() <= usize::MAX,
    ensures
        ({
            let c = counts_at(packages_in(entities), name);
            &&& c.classes == held(entities, name, 0)
            &&& c.interfaces == held(entities, name, 1)
            &&& c.methods == held(entities, name, 2)
            &&& c.fields == held(entities, name, 3)
        }),
        lookup(packages_in(entities), name) is Some <==> exists|i: int|
            0 <= i < entities.len() && package_of_entity((#[trigger] entities[i]).fqn) == name,
    decreases entities.len(),
{
    lemma_held(entities, name, 0);
    lemma_held(entities, name, 1);
    lemma_held(entities, name, 2);
    lemma_held(entities, name, 3);
    if entities.len() == 0 {
        lemma_key_position(packages_in(entities), name);
    } else {
        let front = entities.drop_last();
        lemma_packages_in(front, name);
        lemma_held(front, name, 0);
        lemma_held(front, name, 1);
        lemma_held(front, name, 2);
        lemma_held(front, name, 3);
        let e = entities.last();
        let own = package_of_entity(e.fqn);
        let before = packages_in(front);
        lemma_entry(before, own, with_kind(counts_at(before, own), e.entity_type), name);
        assert forall|i: int| 0 <= i < front.len() implies #[trigger] entities[i] == front[i] by {}
        assert(entities[entities.len() - 1] == e);
        if lookup(before, name) is Some {
            let i = choose|i: int| 0 <= i < front.len() && package_of_entity((#[trigger] front[i]).fqn) == name;
            assert(package_of_entity(entities[i].fqn) == name);
        }
    }
}

proof fn lemma_named(packages: Seq<(Seq<char>, crate::query::overview::PackageCounts)>, x: PackageOverviewView)
    ensures
        named_packages(packages).contains(x) <==> x.package.len() > 0 && exists|i: int|
            0 <= i < packages.len() && #[trigger] packages[i] == (
                x.package,
                crate::query::overview::PackageCounts {
                    classes: x.classes,
                    interfaces: x.interfaces,
                    methods: x.methods,
                    fields: x.fields,
                },
            ),
    decreases packages.len(),
{
    if packages.len() > 0 {
        let front = packages.drop_last();
        lemma_named(front, x);
        let before = named_packages(front);
        let all = named_packages(packages);
        if all.len() > before.len() {
            lemma_push_contains(before, all.last());
            assert(all =~= before.push(all.last()));
        }
        assert forall|i: int| 0 <= i < front.len() implies #[trigger] packages[i] == front[i] by {}
        assert(packages[packages.len() - 1] == packages.last());
        if before.contains(x) {
            let i = choose|i: int|
                0 <= i < front.len() && #[trigger] front[i] == (
                    x.package,
                    crate::query::overview::PackageCounts {
                        classes: x.classes,
                        interfaces: x.interfaces,
                        methods: x.methods,
                        fields: x.fields,
                    },
                );
            assert(packages[i] == front[i]);
        }
    }
}

/// Every package that holds an entity is listed, with the numbers of its
/// classes, interfaces, methods and fields.
pub proof fn law_overview_packages(space: SpaceView, k: int)
    requires
        space.entities.len() <= usize::MAX,
        0 <= k < space.entities.len(),
        package_of_entity(space.entities[k].fqn).len() > 0,
    ensures
        ({
            let name = package_of_entity(space.entities[k].fqn);
            overview_of(space).packages.contains(
                PackageOverviewView {
                    package: name,
                    classes: held(space.entities, name, 0) as usize,
                    interfaces: held(space.entities, name, 1) as usize,
                    methods: held(space.entities, name, 2) as usize,
                    fields: held(space.entities, name, 3) as usize,
                },
            )
        }),
{
    let name = package_of_entity(space.entities[k].fqn);
    let all = packages_in(space.entities);
    lemma_packages_in(space.entities, name);
    lemma_key_position(all, name);
    let i = key_position(all, name)->Some_0;
    let x = PackageOverviewView {
        package: name,
        classes: held(space.entities, name, 0) as usize,
        interfaces: held(space.entities, name, 1) as usize,
        methods: held(space.entities, name, 2) as usize,
        fields: held(space.entities, name, 3) as usize,
    };
    lemma_held(space.entities, name, 0);
    lemma_held(space.entities, name, 1);
    lemma_held(space.entities, name, 2);
    lemma_held(space.entities, name, 3);
    lemma_named(all, x);
    assert(all[i].0 == name);
    lemma_stable_sorted_contains(named_packages(all), by_size());
}

/// The files are those that the entities name, each once.
pub proof fn law_files(entities: Seq<EntityView>, file: Seq<char>)
    ensures
        files_of(entities).contains(file) <==> file.len() > 0 && exists|i: int|
            0 <= i < entities.len() && (#[trigger] entities[i]).witness.file == file,
        files_of(entities).no_duplicates(),
    decreases entities.len(),
{
    if entities.len() > 0 {
        let front = entities.drop_last();
        law_files(front, file);
        let before = files_of(front);
        let own = entities.last().witness.file;
        lemma_push_contains(before, own);
        assert forall|i: int| 0 <= i < front.len() implies #[trigger] entities[i] == front[i] by {}
        assert(entities[entities.len() - 1] == entities.last());
        if before.contains(file) {
            let i = choose|i: int| 0 <= i < front.len() && (#[trigger] front[i]).witness.file == file;
            assert(entities[i].witness.file == file);
        }
    }
}

} // verus!
