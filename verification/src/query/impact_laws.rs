//! What a change affects is what depends on it.

use vstd::prelude::*;

use crate::lines::trimmed;
use crate::model::graph::{CellView, LinkView};
use crate::model::space_data::{store_of, with_cells, with_links, EntityView, SpaceView};
use crate::model::store::{
    is_distance, is_step, is_walk, leads, lemma_shortest, shortest, valid_id, Direction, StoreView, StoredLink,
};
use crate::order::{lemma_stable_sorted_contains, stable_sorted};
use crate::query::feature::by_text;
use crate::query::impact::{
    affected_by_links, affected_by_store, impact_of, lemma_spread_from, none_affected, spread_all, spread_from,
    spread_once, spreading, stored_distance, with_affected, work_left, Affected, Frontier, ImpactEntryView,
};
use crate::query::resolve::{entity_with, resolved};

verus! {

/// Calls, constructions, extensions, implementations and references to types
/// make what is used matter to its user; nothing else does.
pub open spec fn is_dependency(relation: Seq<char>) -> bool {
    relation == "java.calls"@ || relation == "java.constructs"@ || relation == "java.extends"@ || relation
        == "java.implements"@ || relation == "java.type_reference"@
}

/// One cell uses another along a relation that spreads changes.
pub open spec fn uses(links: Seq<LinkView>, user: Seq<char>, used: Seq<char>) -> bool {
    exists|k: int|
        0 <= k < links.len() && (#[trigger] links[k]).from == user && links[k].to == used && is_dependency(
            links[k].relation,
        )
}

/// A chain of so many uses leads from a cell to the changed one.
pub open spec fn depends(links: Seq<LinkView>, changed: Seq<char>, x: Seq<char>, steps: nat) -> bool
    decreases steps,
{
    if steps == 0 {
        x == changed
    } else {
        exists|mid: Seq<char>| #[trigger]
            uses(links, x, mid) && depends(links, changed, mid, (steps - 1) as nat)
    }
}

/// An entry says what and where an entity is and how far it is away.
pub open spec fn reports(x: ImpactEntryView, e: EntityView, depth: nat) -> bool {
    x.fqn == e.fqn && x.label == e.label && x.file == e.witness.file && x.line == e.witness.start_line && x.depth == depth
}

/// Some entry reports the entity at the distance.
pub open spec fn is_reported(list: Seq<ImpactEntryView>, e: EntityView, depth: nat) -> bool {
    exists|j: int| 0 <= j < list.len() && reports(#[trigger] list[j], e, depth)
}

/// The entity of a cell is reported at its distance.
spec fn cell_listed(
    entities: Seq<EntityView>,
    changed: Seq<char>,
    found: Affected,
    m: Map<Seq<char>, nat>,
    x: Seq<char>,
) -> bool {
    m.contains_key(x) && x != changed ==> (entity_with(entities, x) matches Some(i) ==> is_reported(
        if m[x] == 1 {
            found.direct
        } else {
            found.transitive
        },
        entities[i],
        m[x],
    ) && (entities[i].witness.file.len() > 0 ==> found.files.contains(entities[i].witness.file)))
}

/// The cell is the one that an entry is about.
spec fn is_about(
    entities: Seq<EntityView>,
    changed: Seq<char>,
    m: Map<Seq<char>, nat>,
    entry: ImpactEntryView,
    x: Seq<char>,
) -> bool {
    m.contains_key(x) && x != changed && entity_with(entities, x) is Some && reports(
        entry,
        entities[entity_with(entities, x)->0],
        m[x],
    )
}

/// The file is that of some cell's entity.
spec fn is_file_of(
    entities: Seq<EntityView>,
    changed: Seq<char>,
    m: Map<Seq<char>, nat>,
    file: Seq<char>,
    x: Seq<char>,
) -> bool {
    m.contains_key(x) && x != changed && entity_with(entities, x) is Some && entities[entity_with(
        entities,
        x,
    )->0].witness.file == file
}

/// Exactly the visited cells are reported, each at its distance.
spec fn listed(entities: Seq<EntityView>, changed: Seq<char>, found: Affected, m: Map<Seq<char>, nat>) -> bool {
    &&& m.contains_key(changed) && m[changed] == 0
    &&& forall|x: Seq<char>| #[trigger] m.contains_key(x) && x != changed ==> m[x] >= 1
    &&& forall|x: Seq<char>| #[trigger] m.contains_key(x) ==> cell_listed(entities, changed, found, m, x)
    &&& forall|j: int|
        0 <= j < found.direct.len() ==> (#[trigger] found.direct[j]).depth == 1 && exists|x: Seq<char>| #[trigger]
            is_about(entities, changed, m, found.direct[j], x)
    &&& forall|j: int|
        0 <= j < found.transitive.len() ==> (#[trigger] found.transitive[j]).depth >= 2 && exists|x: Seq<char>| #[trigger]
            is_about(entities, changed, m, found.transitive[j], x)
    &&& forall|f: Seq<char>| #[trigger]
        found.files.contains(f) ==> exists|x: Seq<char>| #[trigger] is_file_of(entities, changed, m, f, x)
}

proof fn lemma_listed(
    entities: Seq<EntityView>,
    changed: Seq<char>,
    found: Affected,
    m: Map<Seq<char>, nat>,
    cell: Seq<char>,
    relation: Seq<char>,
    depth: nat,
)
    requires
        listed(entities, changed, found, m),
        !m.contains_key(cell),
        1 <= depth <= usize::MAX,
    ensures
        listed(
            entities,
            changed,
            with_affected(found, entities, cell, relation, depth),
            m.insert(cell, depth),
        ),
{
    let after = with_affected(found, entities, cell, relation, depth);
    let out = m.insert(cell, depth);
    assert forall|j: int| 0 <= j < found.direct.len() implies after.direct[j] == #[trigger] found.direct[j] by {}
    assert forall|j: int| 0 <= j < found.transitive.len() implies after.transitive[j] == #[trigger] found.transitive[j] by {}
    assert forall|f: Seq<char>| #[trigger] found.files.contains(f) implies after.files.contains(f) by {
        let i = choose|i: int| 0 <= i < found.files.len() && found.files[i] == f;
        assert(after.files[i] == f);
    }
    assert forall|x: Seq<char>| #[trigger] out.contains_key(x) implies cell_listed(entities, changed, after, out, x) by {
        if x == cell {
            if let Some(i) = entity_with(entities, cell) {
                if depth == 1 {
                    assert(reports(after.direct[found.direct.len() as int], entities[i], depth));
                } else {
                    assert(reports(after.transitive[found.transitive.len() as int], entities[i], depth));
                }
                let file = entities[i].witness.file;
                if file.len() > 0 && !found.files.contains(file) {
                    assert(after.files[found.files.len() as int] == file);
                }
            }
        } else {
            assert(m.contains_key(x));
            assert(cell_listed(entities, changed, found, m, x));
            if x != changed {
                if let Some(i) = entity_with(entities, x) {
                    let e = entities[i];
                    if m[x] == 1 {
                        let j = choose|j: int| 0 <= j < found.direct.len() && reports(#[trigger] found.direct[j], e, m[x]);
                        assert(reports(after.direct[j], e, m[x]));
                    } else {
                        let j = choose|j: int|
                            0 <= j < found.transitive.len() && reports(#[trigger] found.transitive[j], e, m[x]);
                        assert(reports(after.transitive[j], e, m[x]));
                    }
                }
            }
        }
    }
    assert forall|j: int| 0 <= j < after.direct.len() implies (#[trigger] after.direct[j]).depth == 1 && exists|
        x: Seq<char>,
    | #[trigger] is_about(entities, changed, out, after.direct[j], x) by {
        if j < found.direct.len() {
            let entry = found.direct[j];
            let x = choose|x: Seq<char>| #[trigger] is_about(entities, changed, m, entry, x);
            assert(is_about(entities, changed, out, after.direct[j], x));
        } else {
            assert(is_about(entities, changed, out, after.direct[j], cell));
        }
    }
    assert forall|j: int| 0 <= j < after.transitive.len() implies (#[trigger] after.transitive[j]).depth >= 2
        && exists|x: Seq<char>| #[trigger] is_about(entities, changed, out, after.transitive[j], x) by {
        if j < found.transitive.len() {
            let entry = found.transitive[j];
            let x = choose|x: Seq<char>| #[trigger] is_about(entities, changed, m, entry, x);
            assert(is_about(entities, changed, out, after.transitive[j], x));
        } else {
            assert(is_about(entities, changed, out, after.transitive[j], cell));
        }
    }
    assert forall|f: Seq<char>| #[trigger] after.files.contains(f) implies exists|x: Seq<char>| #[trigger]
        is_file_of(entities, changed, out, f, x) by {
        if found.files.contains(f) {
            let x = choose|x: Seq<char>| #[trigger] is_file_of(entities, changed, m, f, x);
            assert(is_file_of(entities, changed, out, f, x));
        } else {
            let i = choose|i: int| 0 <= i < after.files.len() && after.files[i] == f;
            if i < found.files.len() {
                assert(found.files[i] == f);
            }
            assert(is_file_of(entities, changed, out, f, cell));
        }
    }
}

/// The visited cells with their distances.
spec fn known(
    links: Seq<LinkView>,
    changed: Seq<char>,
    max_depth: usize,
    found: Affected,
    m: Map<Seq<char>, nat>,
) -> bool {
    &&& forall|x: Seq<char>| #[trigger] found.visited.contains(x) <==> m.contains_key(x)
    &&& m.contains_key(changed)
    &&& forall|x: Seq<char>| #[trigger] m.contains_key(x) ==> depends(links, changed, x, m[x]) && m[x] <= max_depth
    &&& forall|x: Seq<char>, d: nat| m.contains_key(x) && #[trigger] depends(links, changed, x, d) ==> m[x] <= d
}

spec fn waiting(queue: Seq<(Seq<char>, nat)>, x: Seq<char>) -> bool {
    exists|i: int| 0 <= i < queue.len() && (#[trigger] queue[i]).0 == x
}

/// The queue is ordered by distance and spans two distances at most.
spec fn queued(queue: Seq<(Seq<char>, nat)>, m: Map<Seq<char>, nat>, level: nat) -> bool {
    &&& forall|i: int|
        0 <= i < queue.len() ==> m.contains_key((#[trigger] queue[i]).0) && m[queue[i].0] == queue[i].1 && level
            <= queue[i].1 <= level + 1
    &&& forall|i: int, j: int| 0 <= i < j < queue.len() ==> (#[trigger] queue[i]).1 <= (#[trigger] queue[j]).1
}

/// All cells up to a distance have been visited.
spec fn near(links: Seq<LinkView>, changed: Seq<char>, m: Map<Seq<char>, nat>, level: nat) -> bool {
    forall|x: Seq<char>, d: nat| d <= level && #[trigger] depends(links, changed, x, d) ==> m.contains_key(x)
}

/// The users of a cell have been visited.
spec fn users_known(links: Seq<LinkView>, m: Map<Seq<char>, nat>, x: Seq<char>) -> bool {
    forall|y: Seq<char>| #[trigger] uses(links, y, x) ==> m.contains_key(y)
}

/// The users of every cell that is near enough have been visited, but for
/// those of the cells that wait and of one more.
spec fn done(
    links: Seq<LinkView>,
    max_depth: usize,
    queue: Seq<(Seq<char>, nat)>,
    m: Map<Seq<char>, nat>,
    but: Option<Seq<char>>,
) -> bool {
    forall|x: Seq<char>|
        #![trigger m.contains_key(x)]
        m.contains_key(x) && m[x] < max_depth && !waiting(queue, x) && but != Some(x) ==> users_known(links, m, x)
}

spec fn included(a: Map<Seq<char>, nat>, b: Map<Seq<char>, nat>) -> bool {
    forall|x: Seq<char>| #[trigger] a.contains_key(x) ==> b.contains_key(x) && b[x] == a[x]
}

proof fn lemma_scan(
    space: SpaceView,
    changed: Seq<char>,
    max_depth: usize,
    n: int,
    cell: Seq<char>,
    depth: nat,
    f: Frontier,
    m: Map<Seq<char>, nat>,
) -> (out: Map<Seq<char>, nat>)
    requires
        0 <= n <= space.links.len(),
        depth < max_depth,
        known(space.links, changed, max_depth, f.found, m),
        queued(f.queue, m, depth),
        near(space.links, changed, m, depth),
        done(space.links, max_depth, f.queue, m, Some(cell)),
        m.contains_key(cell),
        m[cell] == depth,
        listed(space.entities, changed, f.found, m),
    ensures
        included(m, out),
        ({
            let g = spread_from(space, n, cell, depth, f);
            &&& listed(space.entities, changed, g.found, out)
            &&& known(space.links, changed, max_depth, g.found, out)
            &&& queued(g.queue, out, depth)
            &&& near(space.links, changed, out, depth)
            &&& done(space.links, max_depth, g.queue, out, Some(cell))
        }),
        forall|k: int|
            0 <= k < n && (#[trigger] space.links[k]).to == cell && is_dependency(space.links[k].relation) ==> out.contains_key(
                space.links[k].from,
            ),
    decreases n,
{
    if n <= 0 {
        m
    } else {
        let links = space.links;
        let before = spread_from(space, n - 1, cell, depth, f);
        let a = lemma_scan(space, changed, max_depth, n - 1, cell, depth, f, m);
        let l = links[n - 1];
        let g = spread_from(space, n, cell, depth, f);
        if l.to == cell && is_dependency(l.relation) && !before.found.visited.contains(l.from) {
            let x = l.from;
            let out = a.insert(x, depth + 1);
            assert(!a.contains_key(x));
            lemma_listed(space.entities, changed, before.found, a, x, l.relation, depth + 1);
            assert(uses(links, x, cell));
            assert(depends(links, changed, cell, depth));
            assert(depends(links, changed, x, (depth + 1) as nat));
            assert(g.found.visited == before.found.visited.push(x));
            assert forall|y: Seq<char>| #[trigger] g.found.visited.contains(y) <==> out.contains_key(y) by {
                let more = g.found.visited;
                let fewer = before.found.visited;
                if fewer.contains(y) {
                    let i = choose|i: int| 0 <= i < fewer.len() && fewer[i] == y;
                    assert(more[i] == y);
                }
                assert(more[fewer.len() as int] == x);
                if more.contains(y) && y != x {
                    let i = choose|i: int| 0 <= i < more.len() && more[i] == y;
                    assert(fewer[i] == y);
                }
            }
            assert forall|y: Seq<char>, d: nat| out.contains_key(y) && #[trigger] depends(links, changed, y, d) implies out[y]
                <= d by {
                if y == x {
                    if d <= depth {
                        assert(a.contains_key(y));
                    }
                } else {
                    assert(a.contains_key(y));
                }
            }
            assert forall|y: Seq<char>| #[trigger] out.contains_key(y) implies depends(links, changed, y, out[y])
                && out[y] <= max_depth by {
                if y != x {
                    assert(a.contains_key(y));
                }
            }
            assert(a.contains_key(changed));
            assert(known(links, changed, max_depth, g.found, out));
            assert(g.queue == before.queue.push((x, depth + 1)));
            assert forall|i: int| 0 <= i < g.queue.len() implies out.contains_key((#[trigger] g.queue[i]).0)
                && out[g.queue[i].0] == g.queue[i].1 && depth <= g.queue[i].1 <= depth + 1 by {
                if i < before.queue.len() {
                    assert(g.queue[i] == before.queue[i]);
                    assert(a.contains_key(before.queue[i].0));
                }
            }
            assert forall|i: int, j: int| 0 <= i < j < g.queue.len() implies (#[trigger] g.queue[i]).1 <= (
            #[trigger] g.queue[j]).1 by {
                assert(g.queue[i] == before.queue[i]);
                if j < before.queue.len() {
                    assert(g.queue[j] == before.queue[j]);
                }
            }
            assert forall|y: Seq<char>, d: nat| d <= depth && #[trigger] depends(links, changed, y, d) implies out.contains_key(
                y,
            ) by {
                assert(a.contains_key(y));
            }
            assert forall|y: Seq<char>|
                #![trigger out.contains_key(y)]
                out.contains_key(y) && out[y] < max_depth && !waiting(g.queue, y) && Some(cell) != Some(y) implies users_known(
                links,
                out,
                y,
            ) by {
                assert(g.queue[before.queue.len() as int].0 == x);
                assert(y != x);
                assert(a.contains_key(y));
                if waiting(before.queue, y) {
                    let i = choose|i: int| 0 <= i < before.queue.len() && (#[trigger] before.queue[i]).0 == y;
                    assert(g.queue[i].0 == y);
                }
                assert(users_known(links, a, y));
                assert forall|z: Seq<char>| #[trigger] uses(links, z, y) implies out.contains_key(z) by {
                    assert(a.contains_key(z));
                }
            }
            assert forall|y: Seq<char>| #[trigger] m.contains_key(y) implies out.contains_key(y) && out[y] == m[y] by {
                assert(a.contains_key(y));
            }
            assert forall|k: int|
                0 <= k < n && (#[trigger] links[k]).to == cell && is_dependency(links[k].relation) implies out.contains_key(
                links[k].from,
            ) by {
                if k < n - 1 {
                    assert(a.contains_key(links[k].from));
                }
            }
            out
        } else {
            assert(g == before);
            if l.to == cell && is_dependency(l.relation) {
                assert(a.contains_key(l.from));
            }
            a
        }
    }
}

/// What the distances come to when nothing waits any more.
proof fn lemma_end(
    links: Seq<LinkView>,
    changed: Seq<char>,
    max_depth: usize,
    found: Affected,
    m: Map<Seq<char>, nat>,
    x: Seq<char>,
    d: nat,
)
    requires
        known(links, changed, max_depth, found, m),
        done(links, max_depth, Seq::empty(), m, None),
        depends(links, changed, x, d),
        d <= max_depth,
    ensures
        m.contains_key(x),
    decreases d,
{
    if d > 0 {
        let mid = choose|mid: Seq<char>| #[trigger]
            uses(links, x, mid) && depends(links, changed, mid, (d - 1) as nat);
        lemma_end(links, changed, max_depth, found, m, mid, (d - 1) as nat);
        assert(m[mid] <= d - 1);
        assert(users_known(links, m, mid));
    }
}

proof fn lemma_search(
    space: SpaceView,
    changed: Seq<char>,
    max_depth: usize,
    f: Frontier,
    m: Map<Seq<char>, nat>,
) -> (last: Map<Seq<char>, nat>)
    requires
        listed(space.entities, changed, f.found, m),
        known(space.links, changed, max_depth, f.found, m),
        done(space.links, max_depth, f.queue, m, None),
        f.queue.len() > 0 ==> queued(f.queue, m, f.queue[0].1) && near(space.links, changed, m, f.queue[0].1),
    ensures
        known(space.links, changed, max_depth, spread_all(space, f, max_depth), last),
        done(space.links, max_depth, Seq::empty(), last, None),
        listed(space.entities, changed, spread_all(space, f, max_depth), last),
    decreases work_left(space, f),
{
    let links = space.links;
    if f.queue.len() == 0 {
        assert(f.queue =~= Seq::empty());
        m
    } else {
        let (cell, depth) = f.queue[0];
        let rest = Frontier { queue: f.queue.skip(1), ..f };
        let next = spread_once(space, f, max_depth);
        assert(m.contains_key(f.queue[0].0));
        assert forall|i: int| 0 <= i < rest.queue.len() implies #[trigger] rest.queue[i] == f.queue[i + 1] by {}
        assert(queued(rest.queue, m, depth));
        assert(done(links, max_depth, rest.queue, m, Some(cell))) by {
            assert forall|y: Seq<char>|
                #![trigger m.contains_key(y)]
                m.contains_key(y) && m[y] < max_depth && !waiting(rest.queue, y) && Some(cell) != Some(y) implies users_known(
                links,
                m,
                y,
            ) by {
                if waiting(f.queue, y) {
                    let i = choose|i: int| 0 <= i < f.queue.len() && (#[trigger] f.queue[i]).0 == y;
                    assert(i > 0);
                    assert(rest.queue[i - 1].0 == y);
                }
            }
        }
        let out = if depth >= max_depth {
            m
        } else {
            lemma_scan(space, changed, max_depth, links.len() as int, cell, depth, rest, m)
        };
        lemma_spread_from(space, links.len() as int, cell, depth, rest);
        assert(work_left(space, next) < work_left(space, f));
        assert(done(links, max_depth, next.queue, out, None)) by {
            assert forall|y: Seq<char>|
                #![trigger out.contains_key(y)]
                out.contains_key(y) && out[y] < max_depth && !waiting(next.queue, y) && None::<Seq<char>> != Some(y) implies users_known(
                links,
                out,
                y,
            ) by {
                if y == cell {
                    assert(m.contains_key(cell));
                    assert(out[y] == depth);
                    assert forall|z: Seq<char>| #[trigger] uses(links, z, y) implies out.contains_key(z) by {
                        let k = choose|k: int|
                            0 <= k < links.len() && (#[trigger] links[k]).from == z && links[k].to == y && is_dependency(
                                links[k].relation,
                            );
                        assert(out.contains_key(links[k].from));
                    }
                }
            }
        }
        if next.queue.len() > 0 {
            let level = next.queue[0].1;
            assert(queued(next.queue, out, depth));
            assert(out.contains_key(next.queue[0].0));
            assert(queued(next.queue, out, level)) by {
                assert forall|i: int| 0 <= i < next.queue.len() implies out.contains_key((#[trigger] next.queue[i]).0)
                    && out[next.queue[i].0] == next.queue[i].1 && level <= next.queue[i].1 <= level + 1 by {}
            }
            assert(near(links, changed, out, level)) by {
                assert forall|y: Seq<char>, d: nat| d <= level && #[trigger] depends(links, changed, y, d) implies out.contains_key(
                    y,
                ) by {
                    if d > depth {
                        assert(d == depth + 1);
                        let mid = choose|mid: Seq<char>| #[trigger]
                            uses(links, y, mid) && depends(links, changed, mid, (d - 1) as nat);
                        assert(out.contains_key(mid));
                        assert(out[mid] <= depth);
                        assert(!waiting(next.queue, mid)) by {
                            if waiting(next.queue, mid) {
                                let i = choose|i: int| 0 <= i < next.queue.len() && (#[trigger] next.queue[i]).0 == mid;
                                assert(next.queue[i].1 >= level);
                            }
                        }
                        assert(next.queue[0].1 <= max_depth);
                        assert(users_known(links, out, mid));
                    }
                }
            }
        }
        lemma_search(space, changed, max_depth, next, out)
    }
}

proof fn lemma_found(space: SpaceView, changed: Seq<char>, max_depth: usize) -> (m: Map<Seq<char>, nat>)
    ensures
        known(space.links, changed, max_depth, affected_by_links(space, changed, max_depth), m),
        done(space.links, max_depth, Seq::empty(), m, None),
        listed(space.entities, changed, affected_by_links(space, changed, max_depth), m),
{
    let f = Frontier { found: none_affected(changed), queue: seq![(changed, 0nat)] };
    let m = Map::<Seq<char>, nat>::empty().insert(changed, 0nat);
    assert(f.found.visited[0] == changed);
    assert(depends(space.links, changed, changed, 0));
    assert(f.queue[0].0 == changed);
    assert(waiting(f.queue, changed));
    lemma_search(space, changed, max_depth, f, m)
}

/// Without a store, a change affects exactly the cells that depend on the
/// changed one over at most so many uses, and the changed one itself.
pub proof fn law_affected_depends(space: SpaceView, changed: Seq<char>, max_depth: usize, x: Seq<char>)
    ensures
        affected_by_links(space, changed, max_depth).visited.contains(x) <==> exists|d: nat|
            d <= max_depth && #[trigger] depends(space.links, changed, x, d),
{
    let m = lemma_found(space, changed, max_depth);
    let found = affected_by_links(space, changed, max_depth);
    if found.visited.contains(x) {
        assert(m.contains_key(x));
        assert(depends(space.links, changed, x, m[x]));
    }
    if exists|d: nat| d <= max_depth && #[trigger] depends(space.links, changed, x, d) {
        let d = choose|d: nat| d <= max_depth && #[trigger] depends(space.links, changed, x, d);
        lemma_end(space.links, changed, max_depth, found, m, x, d);
    }
}

/// A name without white space at its ends.
pub open spec fn is_name(s: Seq<char>) -> bool {
    valid_id(s) && trimmed(s) == s
}

pub open spec fn is_cell(cells: Seq<CellView>, id: Seq<char>) -> bool {
    exists|i: int| 0 <= i < cells.len() && (#[trigger] cells[i]).id == id
}

/// The store takes all of a space: everything is named, nothing twice, and
/// relations join cells.
pub open spec fn is_storable(space: SpaceView) -> bool {
    &&& is_name(space.id) && trimmed(space.name).len() > 0
    &&& forall|i: int|
        0 <= i < space.cells.len() ==> is_name((#[trigger] space.cells[i]).id) && space.cells[i].space_id == space.id
            && trimmed(space.cells[i].cell_type).len() > 0
    &&& forall|i: int, j: int|
        0 <= i < j < space.cells.len() ==> (#[trigger] space.cells[i]).id != (#[trigger] space.cells[j]).id
    &&& forall|k: int|
        0 <= k < space.links.len() ==> is_name((#[trigger] space.links[k]).id) && space.links[k].space_id == space.id
            && is_cell(space.cells, space.links[k].from) && is_cell(space.cells, space.links[k].to)
            && space.links[k].relation.len() > 0 && trimmed(space.links[k].relation) == space.links[k].relation
    &&& forall|j: int, k: int|
        0 <= j < k < space.links.len() ==> (#[trigger] space.links[j]).id != (#[trigger] space.links[k]).id
}

proof fn lemma_cells_stored(space: SpaceView, n: int) -> (store: StoreView)
    requires
        is_storable(space),
        0 <= n <= space.cells.len(),
    ensures
        store == with_cells(StoreView::empty().with_space(space.id), space.cells.take(n)),
        store.spaces.contains(space.id),
        store.links.len() == 0,
        forall|x: Seq<char>| #[trigger] store.cells.contains_key(x) <==> is_cell(space.cells.take(n), x),
        forall|x: Seq<char>| #[trigger] store.cells.contains_key(x) ==> store.cells[x] == space.id,
    decreases n,
{
    let some = space.cells.take(n);
    let start = StoreView::empty().with_space(space.id);
    if n > 0 {
        let fewer = space.cells.take(n - 1);
        let before = lemma_cells_stored(space, n - 1);
        assert(some.drop_last() =~= fewer);
        let c = some.last();
        assert(c == space.cells[n - 1]);
        if is_cell(fewer, c.id) {
            let i = choose|i: int| 0 <= i < fewer.len() && (#[trigger] fewer[i]).id == c.id;
            assert(space.cells[i].id != space.cells[n - 1].id);
        }
        assert(before.takes_cell(c.id, c.space_id, c.cell_type));
        let store = before.with_cell(c.id, c.space_id);
        assert forall|x: Seq<char>| #[trigger] store.cells.contains_key(x) <==> is_cell(some, x) by {
            if is_cell(fewer, x) {
                let i = choose|i: int| 0 <= i < fewer.len() && (#[trigger] fewer[i]).id == x;
                assert(some[i].id == x);
            }
            assert(some[n - 1].id == c.id);
            if is_cell(some, x) && x != c.id {
                let i = choose|i: int| 0 <= i < some.len() && (#[trigger] some[i]).id == x;
                assert(fewer[i].id == x);
            }
        }
        store
    } else {
        assert(some =~= Seq::empty());
        assert forall|x: Seq<char>| !is_cell(some, x) by {}
        start
    }
}

proof fn lemma_links_stored(space: SpaceView, base: StoreView, n: int) -> (store: StoreView)
    requires
        is_storable(space),
        0 <= n <= space.links.len(),
        base.spaces.contains(space.id),
        base.links.len() == 0,
        forall|x: Seq<char>| is_cell(space.cells, x) ==> base.cells.contains_key(x) && base.cells[x] == space.id,
    ensures
        store == with_links(base, space.links.take(n)),
        store.cells == base.cells,
        store.spaces == base.spaces,
        store.links.len() == n,
        forall|k: int| 0 <= k < n ==> #[trigger] store.links[k] == stored(space.links[k]),
    decreases n,
{
    let some = space.links.take(n);
    if n > 0 {
        let before = lemma_links_stored(space, base, n - 1);
        assert(some.drop_last() =~= space.links.take(n - 1));
        let l = some.last();
        assert(l == space.links[n - 1]);
        if before.has_link(trimmed(l.id)) {
            let k = choose|k: int| 0 <= k < before.links.len() && (#[trigger] before.links[k]).id == trimmed(l.id);
            assert(space.links[k].id != space.links[n - 1].id);
        }
        lemma_cell_named(space, l.from);
        lemma_cell_named(space, l.to);
        assert(before.takes_link(l.id, l.space_id, l.from, l.to, l.relation));
        before.with_link(l.id, l.space_id, l.from, l.to, l.relation)
    } else {
        assert(some =~= Seq::empty());
        base
    }
}

proof fn lemma_cell_named(space: SpaceView, x: Seq<char>)
    requires
        is_storable(space),
        is_cell(space.cells, x),
    ensures
        is_name(x),
{
    let i = choose|i: int| 0 <= i < space.cells.len() && (#[trigger] space.cells[i]).id == x;
}

/// A relation as the store keeps it.
spec fn stored(l: LinkView) -> StoredLink {
    StoredLink { id: l.id, space: l.space_id, from: l.from, to: l.to, relation: l.relation }
}

spec fn all_stored(space: SpaceView, links: Seq<StoredLink>) -> bool {
    links.len() == space.links.len() && forall|k: int|
        0 <= k < links.len() ==> #[trigger] links[k] == stored(space.links[k])
}

proof fn lemma_spreading(relation: Seq<char>)
    ensures
        spreading().contains(relation) <==> is_dependency(relation),
{
    let all = spreading();
    assert(all[0] == "java.calls"@ && all[1] == "java.constructs"@ && all[2] == "java.extends"@ && all[3]
        == "java.implements"@ && all[4] == "java.type_reference"@);
}

proof fn lemma_steps(space: SpaceView, links: Seq<StoredLink>, mid: Seq<char>, x: Seq<char>)
    requires
        is_storable(space),
        all_stored(space, links),
    ensures
        is_step(links, space.id, Direction::Incoming, spreading(), mid, x) <==> uses(space.links, x, mid),
{
    if is_step(links, space.id, Direction::Incoming, spreading(), mid, x) {
        let k = choose|k: int|
            0 <= k < links.len() && (#[trigger] links[k]).space == space.id && (spreading().len() == 0
                || spreading().contains(links[k].relation)) && leads(links[k], Direction::Incoming, mid, x);
        assert(links[k] == stored(space.links[k]));
        lemma_spreading(links[k].relation);
        assert(space.links[k].from == x);
    }
    if uses(space.links, x, mid) {
        let k = choose|k: int|
            0 <= k < space.links.len() && (#[trigger] space.links[k]).from == x && space.links[k].to == mid && is_dependency(
                space.links[k].relation,
            );
        assert(links[k] == stored(space.links[k]));
        lemma_spreading(links[k].relation);
    }
}

proof fn lemma_walks(space: SpaceView, links: Seq<StoredLink>, changed: Seq<char>, x: Seq<char>, d: nat)
    requires
        is_storable(space),
        all_stored(space, links),
    ensures
        is_walk(links, space.id, Direction::Incoming, spreading(), changed, x, d) <==> depends(
            space.links,
            changed,
            x,
            d,
        ),
    decreases d,
{
    if d > 0 {
        let e = (d - 1) as nat;
        if is_walk(links, space.id, Direction::Incoming, spreading(), changed, x, d) {
            let mid = choose|mid: Seq<char>| #[trigger]
                is_step(links, space.id, Direction::Incoming, spreading(), mid, x) && is_walk(
                    links,
                    space.id,
                    Direction::Incoming,
                    spreading(),
                    changed,
                    mid,
                    e,
                );
            lemma_steps(space, links, mid, x);
            lemma_walks(space, links, changed, mid, e);
            assert(uses(space.links, x, mid));
        }
        if depends(space.links, changed, x, d) {
            let mid = choose|mid: Seq<char>| #[trigger]
                uses(space.links, x, mid) && depends(space.links, changed, mid, e);
            lemma_steps(space, links, mid, x);
            lemma_walks(space, links, changed, mid, e);
            assert(is_step(links, space.id, Direction::Incoming, spreading(), mid, x));
        }
    }
}

/// The first of the numbers up to one with a walk.
proof fn lemma_least(
    links: Seq<StoredLink>,
    space: Seq<char>,
    changed: Seq<char>,
    x: Seq<char>,
    n: nat,
) -> (least: nat)
    requires
        is_walk(links, space, Direction::Incoming, spreading(), changed, x, n),
    ensures
        least <= n,
        is_walk(links, space, Direction::Incoming, spreading(), changed, x, least),
        forall|e: nat|
            e < least ==> !#[trigger] is_walk(links, space, Direction::Incoming, spreading(), changed, x, e),
    decreases n,
{
    if exists|e: nat| e < n && #[trigger] is_walk(links, space, Direction::Incoming, spreading(), changed, x, e) {
        let e = choose|e: nat| e < n && #[trigger] is_walk(links, space, Direction::Incoming, spreading(), changed, x, e);
        lemma_least(links, space, changed, x, e)
    } else {
        n
    }
}

proof fn lemma_distance_found(
    links: Seq<StoredLink>,
    space: Seq<char>,
    changed: Seq<char>,
    x: Seq<char>,
    max_depth: usize,
)
    ensures
        shortest(links, space, Direction::Incoming, spreading(), changed, x, Some(max_depth)) is Some <==> exists|d: nat|
            d <= max_depth && #[trigger] is_walk(links, space, Direction::Incoming, spreading(), changed, x, d),
{
    let way = Direction::Incoming;
    if exists|d: nat| d <= max_depth && #[trigger] is_walk(links, space, way, spreading(), changed, x, d) {
        let d = choose|d: nat| d <= max_depth && #[trigger] is_walk(links, space, way, spreading(), changed, x, d);
        let least = lemma_least(links, space, changed, x, d);
        lemma_shortest(links, space, way, spreading(), changed, x, Some(max_depth), Some(least as usize));
    } else {
        assert(is_distance(links, space, way, spreading(), changed, x, Some(max_depth), None));
        lemma_shortest(links, space, way, spreading(), changed, x, Some(max_depth), None);
    }
}

proof fn lemma_by_store(
    store: StoreView,
    space: SpaceView,
    cells: Seq<CellView>,
    changed: Seq<char>,
    max_depth: usize,
    x: Seq<char>,
)
    ensures
        affected_by_store(store, space, cells, changed, max_depth).visited.contains(x) <==> x == changed || (is_cell(
            cells,
            x,
        ) && stored_distance(store, space.id, changed, x, max_depth) is Some),
    decreases cells.len(),
{
    let all = affected_by_store(store, space, cells, changed, max_depth).visited;
    if cells.len() == 0 {
        assert(all[0] == changed);
    } else {
        let fewer = cells.drop_last();
        let before = affected_by_store(store, space, fewer, changed, max_depth).visited;
        let id = cells.last().id;
        lemma_by_store(store, space, fewer, changed, max_depth, x);
        lemma_by_store(store, space, fewer, changed, max_depth, id);
        if is_cell(fewer, x) {
            let i = choose|i: int| 0 <= i < fewer.len() && (#[trigger] fewer[i]).id == x;
            assert(cells[i].id == x);
        }
        assert(cells[cells.len() - 1].id == id);
        if is_cell(cells, x) && x != id {
            let i = choose|i: int| 0 <= i < cells.len() && (#[trigger] cells[i]).id == x;
            assert(fewer[i].id == x);
        }
        if !before.contains(id) && stored_distance(store, space.id, changed, id, max_depth) is Some {
            assert(all == before.push(id));
            assert(all[before.len() as int] == id);
            if before.contains(x) {
                let i = choose|i: int| 0 <= i < before.len() && before[i] == x;
                assert(all[i] == x);
            }
            if all.contains(x) && x != id {
                let i = choose|i: int| 0 <= i < all.len() && all[i] == x;
                assert(before[i] == x);
            }
        }
    }
}

proof fn lemma_store_listed(
    store: StoreView,
    space: SpaceView,
    cells: Seq<CellView>,
    changed: Seq<char>,
    max_depth: usize,
) -> (m: Map<Seq<char>, nat>)
    requires
        forall|x: Seq<char>|
            x != changed && is_cell(cells, x) && (#[trigger] stored_distance(
                store,
                space.id,
                changed,
                x,
                max_depth,
            )) is Some ==> stored_distance(store, space.id, changed, x, max_depth)->0 >= 1,
    ensures
        listed(space.entities, changed, affected_by_store(store, space, cells, changed, max_depth), m),
        forall|x: Seq<char>| #[trigger]
            affected_by_store(store, space, cells, changed, max_depth).visited.contains(x) <==> m.contains_key(x),
        forall|x: Seq<char>| #[trigger]
            m.contains_key(x) && x != changed ==> stored_distance(store, space.id, changed, x, max_depth) == Some(
                m[x] as usize,
            ) && m[x] <= usize::MAX,
    decreases cells.len(),
{
    let all = affected_by_store(store, space, cells, changed, max_depth);
    if cells.len() == 0 {
        let m = Map::<Seq<char>, nat>::empty().insert(changed, 0nat);
        assert(all.visited[0] == changed);
        m
    } else {
        let fewer = cells.drop_last();
        let id = cells.last().id;
        assert forall|x: Seq<char>| is_cell(fewer, x) implies is_cell(cells, x) by {
            let i = choose|i: int| 0 <= i < fewer.len() && (#[trigger] fewer[i]).id == x;
            assert(cells[i].id == x);
        }
        assert(cells[cells.len() - 1].id == id);
        let m = lemma_store_listed(store, space, fewer, changed, max_depth);
        let before = affected_by_store(store, space, fewer, changed, max_depth);
        if before.visited.contains(id) {
            m
        } else {
            match stored_distance(store, space.id, changed, id, max_depth) {
                Some(d) => {
                    assert(m.contains_key(changed));
                    assert(is_cell(cells, id));
                    lemma_listed(space.entities, changed, before, m, id, "java.calls"@, d as nat);
                    let out = m.insert(id, d as nat);
                    assert forall|x: Seq<char>| #[trigger] all.visited.contains(x) <==> out.contains_key(x) by {
                        assert(all.visited == before.visited.push(id));
                        assert(all.visited[before.visited.len() as int] == id);
                        if before.visited.contains(x) {
                            let i = choose|i: int| 0 <= i < before.visited.len() && before.visited[i] == x;
                            assert(all.visited[i] == x);
                        }
                        if all.visited.contains(x) && x != id {
                            let i = choose|i: int| 0 <= i < all.visited.len() && all.visited[i] == x;
                            assert(before.visited[i] == x);
                        }
                    }
                    out
                },
                None => m,
            }
        }
    }
}

/// A cell depends on the changed one over so many uses and no fewer.
pub open spec fn is_away(links: Seq<LinkView>, changed: Seq<char>, x: Seq<char>, d: nat) -> bool {
    depends(links, changed, x, d) && forall|e: nat| e < d ==> !#[trigger] depends(links, changed, x, e)
}

/// The entity of a cell that is so far away is what an entry reports.
pub open spec fn is_entry_of(space: SpaceView, changed: Seq<char>, x: Seq<char>, entry: ImpactEntryView) -> bool {
    entity_with(space.entities, x) is Some && is_away(space.links, changed, x, entry.depth as nat) && reports(
        entry,
        space.entities[entity_with(space.entities, x)->0],
        entry.depth as nat,
    )
}

/// The direct impacts are the users of the changed cell, the transitive ones
/// those who depend on it over more uses, up to the limit, and the files are
/// theirs.
pub open spec fn is_impact(
    space: SpaceView,
    changed: Seq<char>,
    max_depth: usize,
    direct: Seq<ImpactEntryView>,
    transitive: Seq<ImpactEntryView>,
    files: Seq<Seq<char>>,
) -> bool {
    &&& forall|x: Seq<char>, d: nat|
        1 <= d <= max_depth && (#[trigger] is_away(space.links, changed, x, d)) ==> (entity_with(
            space.entities,
            x,
        ) matches Some(i) ==> is_reported(
            if d == 1 {
                direct
            } else {
                transitive
            },
            space.entities[i],
            d,
        ) && (space.entities[i].witness.file.len() > 0 ==> files.contains(space.entities[i].witness.file)))
    &&& forall|j: int|
        0 <= j < direct.len() ==> (#[trigger] direct[j]).depth == 1 <= max_depth && exists|x: Seq<char>| #[trigger]
            is_entry_of(space, changed, x, direct[j])
    &&& forall|j: int|
        0 <= j < transitive.len() ==> 2 <= (#[trigger] transitive[j]).depth <= max_depth && exists|x: Seq<char>| #[trigger]
            is_entry_of(space, changed, x, transitive[j])
    &&& forall|f: Seq<char>| #[trigger]
        files.contains(f) ==> exists|x: Seq<char>|
            (#[trigger] entity_with(space.entities, x)) is Some && space.entities[entity_with(
                space.entities,
                x,
            )->0].witness.file == f && exists|d: nat| 1 <= d <= max_depth && #[trigger] is_away(space.links, changed, x, d)
}

/// The distances are those over which cells depend on the changed one.
spec fn are_distances(
    links: Seq<LinkView>,
    changed: Seq<char>,
    max_depth: usize,
    m: Map<Seq<char>, nat>,
) -> bool {
    &&& forall|x: Seq<char>| #[trigger]
        m.contains_key(x) && x != changed ==> is_away(links, changed, x, m[x]) && m[x] <= max_depth
    &&& forall|x: Seq<char>, d: nat| #[trigger] is_away(links, changed, x, d) && 1 <= d <= max_depth ==> m.contains_key(x)
        && m[x] == d && x != changed
}

proof fn lemma_is_impact(space: SpaceView, changed: Seq<char>, max_depth: usize, a: Affected, m: Map<Seq<char>, nat>)
    requires
        listed(space.entities, changed, a, m),
        are_distances(space.links, changed, max_depth, m),
    ensures
        is_impact(space, changed, max_depth, a.direct, a.transitive, stable_sorted(a.files, by_text())),
{
    let files = stable_sorted(a.files, by_text());
    lemma_stable_sorted_contains(a.files, by_text());
    assert forall|x: Seq<char>, d: nat|
        1 <= d <= max_depth && (#[trigger] is_away(space.links, changed, x, d)) implies (entity_with(
        space.entities,
        x,
    ) matches Some(i) ==> is_reported(
        if d == 1 {
            a.direct
        } else {
            a.transitive
        },
        space.entities[i],
        d,
    ) && (space.entities[i].witness.file.len() > 0 ==> files.contains(space.entities[i].witness.file))) by {
        assert(m.contains_key(x));
        assert(cell_listed(space.entities, changed, a, m, x));
    }
    assert forall|j: int| 0 <= j < a.direct.len() implies (#[trigger] a.direct[j]).depth == 1 <= max_depth && exists|
        x: Seq<char>,
    | #[trigger] is_entry_of(space, changed, x, a.direct[j]) by {
        let entry = a.direct[j];
        let x = choose|x: Seq<char>| #[trigger] is_about(space.entities, changed, m, entry, x);
        assert(m.contains_key(x) && x != changed);
        assert(is_entry_of(space, changed, x, entry));
    }
    assert forall|j: int| 0 <= j < a.transitive.len() implies 2 <= (#[trigger] a.transitive[j]).depth <= max_depth
        && exists|x: Seq<char>| #[trigger] is_entry_of(space, changed, x, a.transitive[j]) by {
        let entry = a.transitive[j];
        let x = choose|x: Seq<char>| #[trigger] is_about(space.entities, changed, m, entry, x);
        assert(m.contains_key(x) && x != changed);
        assert(is_entry_of(space, changed, x, entry));
    }
    assert forall|f: Seq<char>| #[trigger] files.contains(f) implies exists|x: Seq<char>|
        (#[trigger] entity_with(space.entities, x)) is Some && space.entities[entity_with(
            space.entities,
            x,
        )->0].witness.file == f && exists|d: nat| 1 <= d <= max_depth && #[trigger] is_away(space.links, changed, x, d) by {
        assert(a.files.contains(f));
        let x = choose|x: Seq<char>| #[trigger] is_file_of(space.entities, changed, m, f, x);
        assert(m.contains_key(x) && x != changed);
        assert(is_away(space.links, changed, x, m[x]));
        assert(entity_with(space.entities, x) is Some);
    }
}

proof fn lemma_link_distances(space: SpaceView, changed: Seq<char>, max_depth: usize) -> (m: Map<Seq<char>, nat>)
    ensures
        listed(space.entities, changed, affected_by_links(space, changed, max_depth), m),
        are_distances(space.links, changed, max_depth, m),
{
    let links = space.links;
    let m = lemma_found(space, changed, max_depth);
    let found = affected_by_links(space, changed, max_depth);
    assert forall|x: Seq<char>| #[trigger] m.contains_key(x) && x != changed implies is_away(links, changed, x, m[x])
        && m[x] <= max_depth by {
        assert(depends(links, changed, x, m[x]));
    }
    assert forall|x: Seq<char>, d: nat| #[trigger] is_away(links, changed, x, d) && 1 <= d <= max_depth implies m.contains_key(
        x,
    ) && m[x] == d && x != changed by {
        lemma_end(links, changed, max_depth, found, m, x, d);
        assert(depends(links, changed, x, m[x]));
        if x == changed {
            assert(depends(links, changed, x, 0));
        }
    }
    m
}

proof fn lemma_stored_distance(
    space: SpaceView,
    store: StoreView,
    changed: Seq<char>,
    max_depth: usize,
    x: Seq<char>,
)
    requires
        is_storable(space),
        is_cell(space.cells, changed),
        is_cell(space.cells, x),
        store_of(space) == Some(store),
    ensures
        match stored_distance(store, space.id, changed, x, max_depth) {
            Some(d) => is_away(space.links, changed, x, d as nat) && d <= max_depth,
            None => forall|d: nat| d <= max_depth ==> !#[trigger] depends(space.links, changed, x, d),
        },
{
    let base = lemma_cells_stored(space, space.cells.len() as int);
    assert(space.cells.take(space.cells.len() as int) =~= space.cells);
    let made = lemma_links_stored(space, base, space.links.len() as int);
    assert(space.links.take(space.links.len() as int) =~= space.links);
    assert(made == store);
    assert(all_stored(space, store.links));
    lemma_cell_named(space, changed);
    lemma_cell_named(space, x);
    assert(store.cells.contains_key(changed) && store.cells.contains_key(x));
    assert forall|d: nat| is_walk(store.links, space.id, Direction::Incoming, spreading(), changed, x, d)
        == #[trigger] depends(space.links, changed, x, d) by {
        lemma_walks(space, store.links, changed, x, d);
    }
    let way = Direction::Incoming;
    if exists|d: nat| d <= max_depth && #[trigger] depends(space.links, changed, x, d) {
        let d = choose|d: nat| d <= max_depth && #[trigger] depends(space.links, changed, x, d);
        assert(is_walk(store.links, space.id, way, spreading(), changed, x, d));
        let least = lemma_least(store.links, space.id, changed, x, d);
        lemma_shortest(store.links, space.id, way, spreading(), changed, x, Some(max_depth), Some(least as usize));
        assert(depends(space.links, changed, x, least));
        assert forall|e: nat| e < least implies !#[trigger] depends(space.links, changed, x, e) by {
            assert(!is_walk(store.links, space.id, way, spreading(), changed, x, e));
        }
    } else {
        assert forall|e: nat| e <= max_depth implies !#[trigger] is_walk(
            store.links,
            space.id,
            way,
            spreading(),
            changed,
            x,
            e,
        ) by {
            assert(!depends(space.links, changed, x, e));
        }
        lemma_shortest(store.links, space.id, way, spreading(), changed, x, Some(max_depth), None);
    }
}

proof fn lemma_store_distances(
    space: SpaceView,
    store: StoreView,
    changed: Seq<char>,
    max_depth: usize,
) -> (m: Map<Seq<char>, nat>)
    requires
        is_storable(space),
        is_cell(space.cells, changed),
        store_of(space) == Some(store),
    ensures
        listed(space.entities, changed, affected_by_store(store, space, space.cells, changed, max_depth), m),
        are_distances(space.links, changed, max_depth, m),
{
    let links = space.links;
    assert forall|x: Seq<char>|
        x != changed && is_cell(space.cells, x) && (#[trigger] stored_distance(
            store,
            space.id,
            changed,
            x,
            max_depth,
        )) is Some implies stored_distance(store, space.id, changed, x, max_depth)->0 >= 1 by {
        lemma_stored_distance(space, store, changed, max_depth, x);
    }
    let m = lemma_store_listed(store, space, space.cells, changed, max_depth);
    let found = affected_by_store(store, space, space.cells, changed, max_depth);
    assert forall|x: Seq<char>| #[trigger] m.contains_key(x) && x != changed implies is_away(links, changed, x, m[x])
        && m[x] <= max_depth by {
        assert(found.visited.contains(x));
        lemma_by_store(store, space, space.cells, changed, max_depth, x);
        lemma_stored_distance(space, store, changed, max_depth, x);
    }
    assert forall|x: Seq<char>, d: nat| #[trigger] is_away(links, changed, x, d) && 1 <= d <= max_depth implies m.contains_key(
        x,
    ) && m[x] == d && x != changed by {
        if x == changed {
            assert(depends(links, changed, x, 0));
        }
        let mid = choose|mid: Seq<char>| #[trigger]
            uses(links, x, mid) && depends(links, changed, mid, (d - 1) as nat);
        let k = choose|k: int|
            0 <= k < links.len() && (#[trigger] links[k]).from == x && links[k].to == mid && is_dependency(
                links[k].relation,
            );
        assert(is_cell(space.cells, links[k].from));
        lemma_stored_distance(space, store, changed, max_depth, x);
        lemma_by_store(store, space, space.cells, changed, max_depth, x);
        assert(found.visited.contains(x));
        assert(m.contains_key(x));
        let e = stored_distance(store, space.id, changed, x, max_depth)->0 as nat;
        if e < d {
            assert(!depends(links, changed, x, e));
        }
    }
    m
}

/// The space is asked without a store, or with the one that holds all of it.
pub open spec fn is_stored_as(space: SpaceView, changed: Seq<char>, store: Option<StoreView>) -> bool {
    store is None || is_storable(space) && is_cell(space.cells, changed) && store == store_of(space)
}

/// A change of a symbol affects exactly what depends on the symbol, over calls,
/// constructions, extensions, implementations and type references: its users
/// directly, whoever depends on those transitively, each reported with its
/// distance, its place and its file, up to the limit.
pub proof fn law_impact(
    space: SpaceView,
    store: Option<StoreView>,
    symbol: Seq<char>,
    max_depth: usize,
    fqn: Seq<char>,
    changed: Seq<char>,
)
    requires
        resolved(space.index, symbol) == Some((fqn, changed)),
        is_stored_as(space, changed, store),
    ensures
        impact_of(space, store, symbol, max_depth) matches Ok(r) && r.changed_symbol == fqn && is_impact(
            space,
            changed,
            max_depth,
            r.direct_impacts,
            r.transitive_impacts,
            r.affected_files,
        ) && r.total_affected == (r.direct_impacts.len() + r.transitive_impacts.len()) as usize,
{
    match store {
        Some(s) => {
            lemma_cell_named(space, changed);
            let m = lemma_store_distances(space, s, changed, max_depth);
            lemma_is_impact(space, changed, max_depth, affected_by_store(s, space, space.cells, changed, max_depth), m);
        },
        None => {
            let m = lemma_link_distances(space, changed, max_depth);
            lemma_is_impact(space, changed, max_depth, affected_by_links(space, changed, max_depth), m);
        },
    }
}

/// Whatever calls, constructs, extends, implements or refers to the changed
/// symbol is a direct impact.
pub proof fn law_users_are_direct_impacts(
    space: SpaceView,
    store: Option<StoreView>,
    symbol: Seq<char>,
    max_depth: usize,
    fqn: Seq<char>,
    changed: Seq<char>,
    k: int,
    i: int,
)
    requires
        resolved(space.index, symbol) == Some((fqn, changed)),
        is_stored_as(space, changed, store),
        max_depth >= 1,
        0 <= k < space.links.len(),
        space.links[k].to == changed,
        space.links[k].from != changed,
        space.links[k].relation == "java.calls"@ || space.links[k].relation == "java.constructs"@
            || space.links[k].relation == "java.extends"@ || space.links[k].relation == "java.implements"@
            || space.links[k].relation == "java.type_reference"@,
        entity_with(space.entities, space.links[k].from) == Some(i),
    ensures
        impact_of(space, store, symbol, max_depth) matches Ok(r) && is_reported(r.direct_impacts, space.entities[i], 1)
            && (space.entities[i].witness.file.len() > 0 ==> r.affected_files.contains(space.entities[i].witness.file)),
{
    law_impact(space, store, symbol, max_depth, fqn, changed);
    let x = space.links[k].from;
    assert(uses(space.links, x, changed));
    assert(depends(space.links, changed, changed, 0));
    assert(depends(space.links, changed, x, 1));
    assert(is_away(space.links, changed, x, 1));
}

/// What a change affects is the same with a store and without one, for spaces
/// that the store takes.
pub proof fn law_store_changes_nothing(space: SpaceView, changed: Seq<char>, max_depth: usize, x: Seq<char>)
    requires
        is_storable(space),
        is_cell(space.cells, changed),
    ensures
        store_of(space) matches Some(store) && (affected_by_store(
            store,
            space,
            space.cells,
            changed,
            max_depth,
        ).visited.contains(x) <==> affected_by_links(space, changed, max_depth).visited.contains(x)),
{
    let base = lemma_cells_stored(space, space.cells.len() as int);
    assert(space.cells.take(space.cells.len() as int) =~= space.cells);
    let store = lemma_links_stored(space, base, space.links.len() as int);
    assert(space.links.take(space.links.len() as int) =~= space.links);
    assert(store_of(space) == Some(store));
    assert(all_stored(space, store.links));
    law_affected_depends(space, changed, max_depth, x);
    lemma_by_store(store, space, space.cells, changed, max_depth, x);
    lemma_cell_named(space, changed);
    lemma_distance_found(store.links, space.id, changed, x, max_depth);
    assert forall|d: nat| is_walk(store.links, space.id, Direction::Incoming, spreading(), changed, x, d)
        == #[trigger] depends(space.links, changed, x, d) by {
        lemma_walks(space, store.links, changed, x, d);
    }
    if exists|d: nat| d <= max_depth && #[trigger] depends(space.links, changed, x, d) {
        let d = choose|d: nat| d <= max_depth && #[trigger] depends(space.links, changed, x, d);
        assert(is_walk(store.links, space.id, Direction::Incoming, spreading(), changed, x, d));
        if d > 0 {
            let mid = choose|mid: Seq<char>| #[trigger]
                uses(space.links, x, mid) && depends(space.links, changed, mid, (d - 1) as nat);
            let k = choose|k: int|
                0 <= k < space.links.len() && (#[trigger] space.links[k]).from == x && space.links[k].to == mid && is_dependency(
                    space.links[k].relation,
                );
            assert(is_cell(space.cells, space.links[k].from));
        }
        lemma_cell_named(space, x);
        assert(store.cells.contains_key(changed) && store.cells.contains_key(x));
        assert(stored_distance(store, space.id, changed, x, max_depth) is Some);
    } else if is_cell(space.cells, x) {
        lemma_cell_named(space, x);
        if stored_distance(store, space.id, changed, x, max_depth) is Some {
            let d = choose|d: nat|
                d <= max_depth && #[trigger] is_walk(
                    store.links,
                    space.id,
                    Direction::Incoming,
                    spreading(),
                    changed,
                    x,
                    d,
                );
            assert(depends(space.links, changed, x, d));
        }
        assert(!depends(space.links, changed, x, 0));
    } else {
        assert(!depends(space.links, changed, x, 0));
    }
}

} // verus!
