//! What holds of the answers to questions.

use vstd::prelude::*;

use crate::model::graph::LinkView;
use crate::model::space_data::{EntityView, SpaceView};
use crate::order::{lemma_stable_sorted, lemma_stable_sorted_contains, stable_sorted, total_preorder};
use crate::query::dead_code::{
    by_likelihood, dead_code_in, is_reference, unused_methods_in, uses_in, DeadCodeEntryView, UseView,
};
use crate::query::dependencies::{
    by_relations, lemma_edge_between, package_edges, package_graph, packages_of_cells,
};
use crate::query::enrich::{batch_of, candidates_in, requests_for};
use crate::query::feature::{
    by_callers, feature_cells, feature_entries, feature_of, feature_types, outside_callers, FeatureResultView,
};
use crate::query::hotspots::{all_measured, by_complexity, hotspots_in, HotspotView};
use crate::query::resolve::name_of;
use crate::text_map::lookup;

verus! {

proof fn lemma_referenced(index: Seq<(Seq<char>, Seq<char>)>, links: Seq<LinkView>, k: int, name: Seq<char>)
    requires
        0 <= k < links.len(),
        is_reference(links[k].relation),
        name_of(index, links[k].to) == Some(name),
    ensures
        uses_in(index, links).referenced.contains(name),
    decreases links.len(),
{
    let before = uses_in(index, links.drop_last()).referenced;
    let l = links.last();
    let after = uses_in(index, links).referenced;
    if k < links.len() - 1 {
        lemma_referenced(index, links.drop_last(), k, name);
        let i = choose|i: int| 0 <= i < before.len() && before[i] == name;
        assert(after[i] == name);
    } else if !before.contains(name) {
        assert(after == before.push(name));
        assert(after[before.len() as int] == name);
    }
}

proof fn lemma_unused_method(
    entities: Seq<EntityView>,
    uses: UseView,
    sources: Seq<(Seq<char>, Seq<char>)>,
    x: DeadCodeEntryView,
)
    requires
        unused_methods_in(entities, uses, sources).contains(x),
    ensures
        !uses.referenced.contains(x.fqn),
    decreases entities.len(),
{
    let all = unused_methods_in(entities, uses, sources);
    let i = choose|i: int| 0 <= i < all.len() && all[i] == x;
    if entities.len() > 0 {
        let before = unused_methods_in(entities.drop_last(), uses, sources);
        if i < before.len() {
            assert(before[i] == x);
            lemma_unused_method(entities.drop_last(), uses, sources, x);
        }
    }
}

/// Nothing that is called or constructed is reported as a dead method.
pub proof fn law_dead_methods_are_not_referenced(
    space: SpaceView,
    sources: Seq<(Seq<char>, Seq<char>)>,
    i: int,
    k: int,
)
    requires
        0 <= i < dead_code_in(space, sources).unused_methods.len(),
        0 <= k < space.links.len(),
        is_reference(space.links[k].relation),
    ensures
        name_of(space.index, space.links[k].to) != Some(dead_code_in(space, sources).unused_methods[i].fqn),
{
    let x = dead_code_in(space, sources).unused_methods[i];
    let uses = uses_in(space.index, space.links);
    let methods = unused_methods_in(space.entities, uses, sources);
    lemma_stable_sorted_contains(methods, by_likelihood());
    assert(dead_code_in(space, sources).unused_methods.contains(x));
    lemma_unused_method(space.entities, uses, sources, x);
    if name_of(space.index, space.links[k].to) == Some(x.fqn) {
        lemma_referenced(space.index, space.links, k, x.fqn);
    }
}

/// Hotspots are listed from the most complex one down, no more of them than
/// asked for.
pub proof fn law_hotspots_ranked(
    space: SpaceView,
    sources: Seq<(Seq<char>, Seq<char>)>,
    limit: usize,
    list: Seq<HotspotView>,
    i: int,
    j: int,
)
    requires
        hotspots_in(space, sources, limit) matches Ok(r) && r.hotspots == list,
        0 <= i < j < list.len(),
    ensures
        list.len() <= limit,
        list[i].complexity >= list[j].complexity,
        list[i].complexity == list[j].complexity ==> list[i].loc >= list[j].loc,
{
    let le = by_complexity();
    assert(total_preorder(le));
    lemma_stable_sorted(all_measured(space.entities, sources), le);
    assert(le(list[i], list[j]));
}

proof fn lemma_edges_cross(links: Seq<LinkView>, packages: Seq<(Seq<char>, Seq<char>)>, i: int)
    requires
        0 <= i < package_edges(links, packages).len(),
    ensures
        package_edges(links, packages)[i].from != package_edges(links, packages)[i].to,
    decreases links.len(),
{
    if links.len() > 0 {
        let before = package_edges(links.drop_last(), packages);
        let l = links.last();
        if let (Some(from), Some(to)) = (lookup(packages, l.from), lookup(packages, l.to)) {
            lemma_edge_between(before, from, to);
        }
        if i < before.len() {
            lemma_edges_cross(links.drop_last(), packages, i);
        }
    }
}

/// Package dependencies lead from one package to another.
pub proof fn law_packages_differ(space: SpaceView, i: int)
    requires
        0 <= i < package_graph(space).edges.len(),
    ensures
        package_graph(space).edges[i].from != package_graph(space).edges[i].to,
{
    let all = package_edges(space.links, packages_of_cells(space.entities));
    let e = package_graph(space).edges[i];
    lemma_stable_sorted_contains(all, by_relations());
    assert(package_graph(space).edges.contains(e));
    let k = choose|k: int| 0 <= k < all.len() && all[k] == e;
    lemma_edges_cross(space.links, packages_of_cells(space.entities), k);
}

proof fn lemma_candidates(entities: Seq<EntityView>, space: SpaceView, scope: Option<Seq<char>>, limit: usize)
    ensures
        candidates_in(entities, space, scope, limit).len() <= limit,
    decreases entities.len(),
{
    if entities.len() > 0 {
        lemma_candidates(entities.drop_last(), space, scope, limit);
    }
}

proof fn lemma_requests(names: Seq<Seq<char>>, space: SpaceView, sources: Seq<(Seq<char>, Seq<char>)>)
    ensures
        requests_for(names, space, sources).len() <= names.len(),
        forall|i: int|
            0 <= i < requests_for(names, space, sources).len() ==> (#[trigger] requests_for(
                names,
                space,
                sources,
            )[i]).source_code.len() > 0,
    decreases names.len(),
{
    if names.len() > 0 {
        lemma_requests(names.drop_last(), space, sources);
    }
}

/// A batch holds no more entities than asked for, each with its source code.
pub proof fn law_batch_is_limited(
    space: SpaceView,
    scope: Option<Seq<char>>,
    limit: usize,
    sources: Seq<(Seq<char>, Seq<char>)>,
)
    ensures
        batch_of(space, scope, limit, sources).entities.len() <= limit,
        forall|i: int|
            0 <= i < batch_of(space, scope, limit, sources).entities.len() ==> (#[trigger] batch_of(
                space,
                scope,
                limit,
                sources,
            ).entities[i]).source_code.len() > 0,
{
    lemma_candidates(space.entities, space, scope, limit);
    lemma_requests(candidates_in(space.entities, space, scope, limit), space, sources);
}

proof fn lemma_outside_callers(links: Seq<LinkView>, cells: Seq<Seq<char>>, cell_id: Seq<char>)
    ensures
        outside_callers(links, cells, cell_id) <= links.len(),
    decreases links.len(),
{
    if links.len() > 0 {
        lemma_outside_callers(links.drop_last(), cells, cell_id);
    }
}

proof fn lemma_entries_called(entities: Seq<EntityView>, links: Seq<LinkView>, cells: Seq<Seq<char>>)
    requires
        links.len() <= usize::MAX,
    ensures
        forall|i: int|
            0 <= i < feature_entries(entities, links, cells).len() ==> (#[trigger] feature_entries(
                entities,
                links,
                cells,
            )[i]).caller_count > 0,
    decreases entities.len(),
{
    if entities.len() > 0 {
        lemma_entries_called(entities.drop_last(), links, cells);
        lemma_outside_callers(links, cells, entities.last().cell_id);
        let before = feature_entries(entities.drop_last(), links, cells);
        let after = feature_entries(entities, links, cells);
        assert forall|i: int| 0 <= i < after.len() implies (#[trigger] after[i]).caller_count > 0 by {
            if i < before.len() {
                assert(after[i] == before[i]);
            }
        }
    }
}

/// The entry points of a feature are called from outside, and are listed from
/// the most called one down.
pub proof fn law_entry_points_are_called(
    space: SpaceView,
    keyword: Seq<char>,
    keyword_lower: Seq<char>,
    r: FeatureResultView,
    i: int,
)
    requires
        space.links.len() <= usize::MAX,
        feature_of(space, keyword, keyword_lower) == Ok::<FeatureResultView, Seq<char>>(r),
        0 <= i < r.entry_points.len(),
    ensures
        r.entry_points[i].caller_count > 0,
        forall|j: int| i <= j < r.entry_points.len() ==> r.entry_points[i].caller_count >= (
        #[trigger] r.entry_points[j]).caller_count,
{
    let cells = feature_cells(space.entities, feature_types(space.entities, keyword_lower));
    let all = feature_entries(space.entities, space.links, cells);
    lemma_entries_called(space.entities, space.links, cells);
    let le = by_callers();
    assert(total_preorder(le));
    lemma_stable_sorted(all, le);
    lemma_stable_sorted_contains(all, le);
    assert(r.entry_points == stable_sorted(all, le));
    assert(r.entry_points.contains(r.entry_points[i]));
    let k = choose|k: int| 0 <= k < all.len() && all[k] == r.entry_points[i];
    assert(all[k].caller_count > 0);
    assert forall|j: int| i <= j < r.entry_points.len() implies r.entry_points[i].caller_count >= (
    #[trigger] r.entry_points[j]).caller_count by {
        if i < j {
            assert(le(r.entry_points[i], r.entry_points[j]));
        }
    }
}

} // verus!
