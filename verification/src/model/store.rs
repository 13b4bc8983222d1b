//! The graph store that answers path questions about a space.

use higher_graphen_core::Id;
use higher_graphen_structure::space::traversal::{
    CycleSearchOptions, ReachabilityQuery, TraversalDirection, TraversalOptions,
};
use higher_graphen_structure::space::{Cell, InMemorySpaceStore, Incidence, IncidenceOrientation, Space};
use vstd::prelude::*;

use crate::lines::{content_end, trimmed};
use crate::text::{is_space, skip_space, texts};

verus! {

/// The in-memory store of spaces, cells and incidences.
#[verifier::external_type_specification]
#[verifier::external_body]
pub struct ExInMemorySpaceStore(InMemorySpaceStore);

/// A relation as the store keeps it.
#[verifier::ext_equal]
pub struct StoredLink {
    pub id: Seq<char>,
    pub space: Seq<char>,
    pub from: Seq<char>,
    pub to: Seq<char>,
    pub relation: Seq<char>,
}

/// The identifiers of the spaces in a store.
pub uninterp spec fn stored_spaces(store: InMemorySpaceStore) -> Set<Seq<char>>;

/// The cells in a store, each with the space that owns it.
pub uninterp spec fn stored_cells(store: InMemorySpaceStore) -> Map<Seq<char>, Seq<char>>;

/// The relations in a store, in order of insertion.
pub uninterp spec fn stored_links(store: InMemorySpaceStore) -> Seq<StoredLink>;

/// A control character.
pub open spec fn is_control(c: char) -> bool {
    (c as u32) < 0x20 || 0x7f <= (c as u32) <= 0x9f
}

/// A text that names something: not blank, and no control character between its ends.
pub open spec fn valid_id(s: Seq<char>) -> bool {
    trimmed(s).len() > 0 && forall|i: int| 0 <= i < trimmed(s).len() ==> !is_control(#[trigger] trimmed(s)[i])
}

/// What a store holds.
#[verifier::ext_equal]
pub struct StoreView {
    pub spaces: Set<Seq<char>>,
    pub cells: Map<Seq<char>, Seq<char>>,
    pub links: Seq<StoredLink>,
}

pub open spec fn store_view(store: InMemorySpaceStore) -> StoreView {
    StoreView { spaces: stored_spaces(store), cells: stored_cells(store), links: stored_links(store) }
}

impl StoreView {
    pub open spec fn empty() -> Self {
        StoreView { spaces: Set::empty(), cells: Map::empty(), links: Seq::empty() }
    }

    pub open spec fn takes_space(self, id: Seq<char>, name: Seq<char>) -> bool {
        valid_id(id) && trimmed(name).len() > 0 && !self.spaces.contains(trimmed(id))
    }

    pub open spec fn with_space(self, id: Seq<char>) -> Self {
        StoreView { spaces: self.spaces.insert(trimmed(id)), cells: self.cells, links: self.links }
    }

    pub open spec fn takes_cell(self, id: Seq<char>, space: Seq<char>, cell_type: Seq<char>) -> bool {
        &&& valid_id(id)
        &&& valid_id(space)
        &&& trimmed(cell_type).len() > 0
        &&& !self.cells.contains_key(trimmed(id))
        &&& self.spaces.contains(trimmed(space))
    }

    pub open spec fn with_cell(self, id: Seq<char>, space: Seq<char>) -> Self {
        StoreView { spaces: self.spaces, cells: self.cells.insert(trimmed(id), trimmed(space)), links: self.links }
    }

    pub open spec fn owns(self, space: Seq<char>, cell: Seq<char>) -> bool {
        self.cells.contains_key(cell) && self.cells[cell] == space
    }

    pub open spec fn has_link(self, id: Seq<char>) -> bool {
        exists|k: int| 0 <= k < self.links.len() && (#[trigger] self.links[k]).id == id
    }

    pub open spec fn takes_link(
        self,
        id: Seq<char>,
        space: Seq<char>,
        from: Seq<char>,
        to: Seq<char>,
        relation: Seq<char>,
    ) -> bool {
        &&& valid_id(id)
        &&& valid_id(space)
        &&& valid_id(from)
        &&& valid_id(to)
        &&& trimmed(relation).len() > 0
        &&& !self.has_link(trimmed(id))
        &&& self.spaces.contains(trimmed(space))
        &&& self.owns(trimmed(space), trimmed(from))
        &&& self.owns(trimmed(space), trimmed(to))
    }

    pub open spec fn with_link(
        self,
        id: Seq<char>,
        space: Seq<char>,
        from: Seq<char>,
        to: Seq<char>,
        relation: Seq<char>,
    ) -> Self {
        StoreView {
            spaces: self.spaces,
            cells: self.cells,
            links: self.links.push(
                StoredLink {
                    id: trimmed(id),
                    space: trimmed(space),
                    from: trimmed(from),
                    to: trimmed(to),
                    relation: trimmed(relation),
                },
            ),
        }
    }
}

/// `InMemorySpaceStore::new`: a store that holds nothing.
#[verifier::external_body]
pub(crate) fn empty_store() -> (r: InMemorySpaceStore)
    ensures
        store_view(r) == StoreView::empty(),
{
    InMemorySpaceStore::new()
}

/// `InMemorySpaceStore::insert_space`: takes a space without members whose
/// identifier is valid and new and whose name is not blank; otherwise the
/// store stays as it was.
#[verifier::external_body]
pub(crate) fn put_space(store: &mut InMemorySpaceStore, id: &str, name: &str) -> (r: bool)
    ensures
        r == store_view(*old(store)).takes_space(id@, name@),
        store_view(*final(store)) == if r {
            store_view(*old(store)).with_space(id@)
        } else {
            store_view(*old(store))
        },
{
    match Id::new(id) {
        Ok(id) => store.insert_space(Space::new(id, name)).is_ok(),
        Err(_) => false,
    }
}

/// `InMemorySpaceStore::insert_cell`: takes a cell without boundary whose
/// identifiers are valid, whose type is not blank, which is new and whose
/// space exists; otherwise the store stays as it was.
#[verifier::external_body]
pub(crate) fn put_cell(store: &mut InMemorySpaceStore, id: &str, space: &str, dimension: u32, cell_type: &str) -> (r: bool)
    ensures
        r == store_view(*old(store)).takes_cell(id@, space@, cell_type@),
        store_view(*final(store)) == if r {
            store_view(*old(store)).with_cell(id@, space@)
        } else {
            store_view(*old(store))
        },
{
    match (Id::new(id), Id::new(space)) {
        (Ok(id), Ok(space)) => store.insert_cell(Cell::new(id, space, dimension, cell_type)).is_ok(),
        _ => false,
    }
}

/// `InMemorySpaceStore::insert_incidence`: takes a directed relation whose
/// identifiers are valid, whose type is not blank, which is new and whose
/// ends are cells of its space; otherwise the store stays as it was.
#[verifier::external_body]
pub(crate) fn put_link(
    store: &mut InMemorySpaceStore,
    id: &str,
    space: &str,
    from: &str,
    to: &str,
    relation: &str,
) -> (r: bool)
    ensures
        r == store_view(*old(store)).takes_link(id@, space@, from@, to@, relation@),
        store_view(*final(store)) == if r {
            store_view(*old(store)).with_link(id@, space@, from@, to@, relation@)
        } else {
            store_view(*old(store))
        },
{
    match (Id::new(id), Id::new(space), Id::new(from), Id::new(to)) {
        (Ok(id), Ok(space), Ok(from), Ok(to)) => {
            let link = Incidence::new(id, space, from, to, relation, IncidenceOrientation::Directed);
            store.insert_incidence(link).is_ok()
        },
        _ => false,
    }
}

/// Which way relations are followed.
#[derive(Debug, Clone, Copy, PartialEq, Eq, Structural)]
pub enum Direction {
    Outgoing,
    Incoming,
    Both,
}

/// A relation leads from one cell to the next in the given direction.
pub open spec fn leads(link: StoredLink, direction: Direction, from: Seq<char>, to: Seq<char>) -> bool {
    match direction {
        Direction::Outgoing => link.from == from && link.to == to,
        Direction::Incoming => link.to == from && link.from == to,
        Direction::Both => if link.from == from {
            link.to == to
        } else {
            link.to == from && link.from == to
        },
    }
}

/// Some admitted relation of the space leads from one cell to the next. An
/// empty list of relation types admits all.
pub open spec fn is_step(
    links: Seq<StoredLink>,
    space: Seq<char>,
    direction: Direction,
    relations: Seq<Seq<char>>,
    from: Seq<char>,
    to: Seq<char>,
) -> bool {
    exists|k: int|
        0 <= k < links.len() && (#[trigger] links[k]).space == space && (relations.len() == 0 || relations.contains(
            links[k].relation,
        )) && leads(links[k], direction, from, to)
}

/// A walk of `depth` steps leads from one cell to the other.
pub open spec fn is_walk(
    links: Seq<StoredLink>,
    space: Seq<char>,
    direction: Direction,
    relations: Seq<Seq<char>>,
    from: Seq<char>,
    to: Seq<char>,
    depth: nat,
) -> bool
    decreases depth,
{
    if depth == 0 {
        from == to
    } else {
        exists|mid: Seq<char>| #[trigger]
            is_step(links, space, direction, relations, mid, to) && is_walk(
                links,
                space,
                direction,
                relations,
                from,
                mid,
                (depth - 1) as nat,
            )
    }
}

/// The answer to a reachability question: the length of a shortest walk
/// within the depth limit, if there is one.
pub open spec fn is_distance(
    links: Seq<StoredLink>,
    space: Seq<char>,
    direction: Direction,
    relations: Seq<Seq<char>>,
    from: Seq<char>,
    to: Seq<char>,
    limit: Option<usize>,
    answer: Option<usize>,
) -> bool {
    match answer {
        Some(d) => {
            &&& is_walk(links, space, direction, relations, from, to, d as nat)
            &&& limit matches Some(max) ==> d <= max
            &&& forall|e: nat| e < d ==> !#[trigger] is_walk(links, space, direction, relations, from, to, e)
        },
        None => forall|e: nat|
            (limit matches Some(max) ==> e <= max) ==> !#[trigger] is_walk(
                links,
                space,
                direction,
                relations,
                from,
                to,
                e,
            ),
    }
}

/// A text that is not blank and has no white space at its ends.
pub open spec fn is_tight(s: Seq<char>) -> bool {
    s.len() > 0 && trimmed(s) == s
}

/// A text that neither starts nor ends with white space is tight.
pub proof fn lemma_tight(s: Seq<char>)
    requires
        s.len() > 0,
        !is_space(s[0]),
        !is_space(s.last()),
    ensures
        is_tight(s),
{
    reveal_with_fuel(skip_space, 2);
    reveal_with_fuel(content_end, 2);
    assert(s.take(content_end(s)) =~= s);
    assert(s.skip(0) =~= s);
}

/// The length of a shortest walk within the limit.
pub open spec fn shortest(
    links: Seq<StoredLink>,
    space: Seq<char>,
    direction: Direction,
    relations: Seq<Seq<char>>,
    from: Seq<char>,
    to: Seq<char>,
    limit: Option<usize>,
) -> Option<usize> {
    choose|answer: Option<usize>| is_distance(links, space, direction, relations, from, to, limit, answer)
}

/// There is only one answer to a reachability question.
pub proof fn lemma_shortest(
    links: Seq<StoredLink>,
    space: Seq<char>,
    direction: Direction,
    relations: Seq<Seq<char>>,
    from: Seq<char>,
    to: Seq<char>,
    limit: Option<usize>,
    answer: Option<usize>,
)
    requires
        is_distance(links, space, direction, relations, from, to, limit, answer),
    ensures
        answer == shortest(links, space, direction, relations, from, to, limit),
{
    let other = shortest(links, space, direction, relations, from, to, limit);
    assert(is_distance(links, space, direction, relations, from, to, limit, other));
    match (answer, other) {
        (Some(a), Some(b)) => {
            if a < b {
                assert(!is_walk(links, space, direction, relations, from, to, a as nat));
            } else if b < a {
                assert(!is_walk(links, space, direction, relations, from, to, b as nat));
            }
        },
        (Some(a), None) => {
            assert(!is_walk(links, space, direction, relations, from, to, a as nat));
        },
        (None, Some(b)) => {
            assert(!is_walk(links, space, direction, relations, from, to, b as nat));
        },
        (None, None) => {},
    }
}

/// `InMemorySpaceStore::reachable`: breadth-first search for the length of a
/// shortest path. It answers when both cells belong to the space, and fails
/// otherwise. The relation types are taken without white space at their ends.
#[verifier::external_body]
pub(crate) fn distance(
    store: &InMemorySpaceStore,
    space: &str,
    from: &str,
    to: &str,
    direction: Direction,
    relations: &Vec<String>,
    limit: Option<usize>,
) -> (r: Option<Option<usize>>)
    requires
        forall|i: int| 0 <= i < relations@.len() ==> is_tight((#[trigger] relations@[i])@),
    ensures
        r.is_some() == (valid_id(space@) && valid_id(from@) && valid_id(to@) && store_view(*store).owns(
            trimmed(space@),
            trimmed(from@),
        ) && store_view(*store).owns(trimmed(space@), trimmed(to@))),
        r matches Some(answer) ==> is_distance(
            stored_links(*store),
            trimmed(space@),
            direction,
            texts(relations@),
            trimmed(from@),
            trimmed(to@),
            limit,
            answer,
        ),
{
    let direction = match direction {
        Direction::Outgoing => TraversalDirection::Outgoing,
        Direction::Incoming => TraversalDirection::Incoming,
        Direction::Both => TraversalDirection::Both,
    };
    let mut options = TraversalOptions::new().in_direction(direction);
    options.relation_types = relations.clone();
    options.max_depth = limit;
    let (space, from, to) = (Id::new(space).ok()?, Id::new(from).ok()?, Id::new(to).ok()?);
    let query = ReachabilityQuery::new(space, from, to).with_options(options);
    let found = store.reachable(&query).ok()?;
    Some(found.shortest_path.map(|p| p.depth()))
}

/// The simple cycles of a space over relations of one type: the cells of
/// each, in the order in which the search meets them.
pub uninterp spec fn simple_cycles(
    cells: Map<Seq<char>, Seq<char>>,
    links: Seq<StoredLink>,
    space: Seq<char>,
    relation: Seq<char>,
    max_cycles: usize,
    max_length: usize,
) -> Seq<Seq<Seq<char>>>;

/// What a list of lists of strings holds.
pub open spec fn text_lists(v: Seq<Vec<String>>) -> Seq<Seq<Seq<char>>> {
    v.map_values(|t: Vec<String>| texts(t@))
}

/// `InMemorySpaceStore::find_simple_cycles`: the simple directed cycles over
/// relations of one type, up to a number and a length. It answers when the
/// space exists and fails otherwise. The order of the search is not stated.
#[verifier::external_body]
pub(crate) fn cycles(
    store: &InMemorySpaceStore,
    space: &str,
    relation: &str,
    max_cycles: usize,
    max_length: usize,
) -> (r: Option<Vec<Vec<String>>>)
    requires
        max_cycles > 0,
        0 < max_length <= 1000,
        is_tight(relation@),
    ensures
        r.is_some() == (valid_id(space@) && stored_spaces(*store).contains(trimmed(space@))),
        r matches Some(found) ==> text_lists(found@) == simple_cycles(
            stored_cells(*store),
            stored_links(*store),
            trimmed(space@),
            relation@,
            max_cycles,
            max_length,
        ),
{
    let space = Id::new(space).ok()?;
    let mut options = CycleSearchOptions::new().with_relation_type(relation);
    options.max_cycles = Some(max_cycles);
    options.max_path_length = Some(max_length);
    let found = store.find_simple_cycles(&space, &options).ok()?;
    Some(found.iter().map(|c| c.vertex_cell_ids.iter().map(|id| id.as_str().to_string()).collect()).collect())
}

} // verus!
