//! From symbols and identifiers to what they stand for.

use vstd::prelude::*;

use crate::lines::{ends, ends_with};
use crate::model::graph::{Cell, CellView};
use crate::model::space_data::{
    index_view, lemma_view_position, EntityRecord, EntityView, SpaceData, SpaceView,
};
use crate::text::{byte_offset, chars_of, same, utf8_length};
use crate::text_map::{lemma_key_position, lookup, TextMap};

verus! {

/// The entry with the shortest name among those that end with the suffix.
pub open spec fn shortest_ending(index: Seq<(Seq<char>, Seq<char>)>, suffix: Seq<char>) -> Option<int>
    decreases index.len(),
{
    if index.len() == 0 {
        None
    } else {
        let before = shortest_ending(index.drop_last(), suffix);
        let name = index.last().0;
        if ends(name, suffix) && (before matches Some(i) ==> utf8_length(name) < utf8_length(index[i].0)) {
            Some(index.len() - 1)
        } else {
            before
        }
    }
}

/// What a symbol stands for: the entity of that full name, or else the one
/// with the shortest name that ends with a dot and the symbol.
pub open spec fn resolved(index: Seq<(Seq<char>, Seq<char>)>, symbol: Seq<char>) -> Option<(Seq<char>, Seq<char>)> {
    match lookup(index, symbol) {
        Some(id) => Some((symbol, id)),
        None => match shortest_ending(index, "."@ + symbol) {
            Some(i) => Some(index[i]),
            None => None,
        },
    }
}

proof fn lemma_shortest_ending(index: Seq<(Seq<char>, Seq<char>)>, suffix: Seq<char>)
    ensures
        shortest_ending(index, suffix) matches Some(i) ==> 0 <= i < index.len() && ends(index[i].0, suffix),
    decreases index.len(),
{
    if index.len() > 0 {
        lemma_shortest_ending(index.drop_last(), suffix);
    }
}

pub fn resolve_symbol<'a>(space_data: &'a SpaceData, symbol: &'a str) -> (r: Option<(&'a str, &'a str)>)
    ensures
        match r {
            Some((fqn, id)) => resolved(space_data@.index, symbol@) == Some((fqn@, id@)),
            None => resolved(space_data@.index, symbol@) is None,
        },
{
    let map = &space_data.fqn_to_cell_id;
    let ghost es = map.entries();
    let ghost index = space_data@.index;
    proof {
        lemma_view_position(es, |v: String| v@, symbol@);
        lemma_key_position(es, symbol@);
        assert(index =~= es.map_values(|e: (Seq<char>, String)| (e.0, (|v: String| v@)(e.1))));
    }
    if let Some(id) = map.get(symbol) {
        return Some((symbol, id.as_str()));
    }
    let mut suffix = ".".to_owned();
    suffix.append(symbol);
    let mut best: Option<usize> = None;
    let mut best_length: u128 = 0;
    let n: usize = map.len();
    let mut i: usize = 0;
    while i < n
        invariant
            i <= n == es.len(),
            es == map.entries(),
            index == index_view(*map),
            suffix@ == "."@ + symbol@,
            match best {
                Some(b) => {
                    &&& shortest_ending(index.take(i as int), suffix@) == Some(b as int)
                    &&& b < i
                    &&& best_length == utf8_length(index[b as int].0)
                },
                None => shortest_ending(index.take(i as int), suffix@) is None,
            },
        decreases n - i,
    {
        let name = map.key_at(i);
        assert(index[i as int].0 == name@);
        assert(index.take(i + 1).drop_last() =~= index.take(i as int));
        let chars = chars_of(name.as_str());
        if ends_with(chars.as_slice(), suffix.as_str()) {
            let length: u128 = byte_offset(chars.as_slice(), chars.len());
            assert(chars@.take(chars@.len() as int) =~= chars@);
            let better = match best {
                Some(_) => length < best_length,
                None => true,
            };
            if better {
                best = Some(i);
                best_length = length;
            }
        }
        i = i + 1;
    }
    assert(index.take(i as int) =~= index);
    match best {
        Some(b) => Some((map.key_at(b).as_str(), map.value_at(b).as_str())),
        None => None,
    }
}

/// The name under which a cell is listed.
pub open spec fn name_of(index: Seq<(Seq<char>, Seq<char>)>, cell_id: Seq<char>) -> Option<Seq<char>>
    decreases index.len(),
{
    if index.len() == 0 {
        None
    } else {
        match name_of(index.drop_last(), cell_id) {
            Some(name) => Some(name),
            None => if index.last().1 == cell_id {
                Some(index.last().0)
            } else {
                None
            },
        }
    }
}

proof fn lemma_name_prefix(index: Seq<(Seq<char>, Seq<char>)>, cell_id: Seq<char>, i: int)
    requires
        0 <= i <= index.len(),
        name_of(index.take(i), cell_id) is Some,
    ensures
        name_of(index, cell_id) == name_of(index.take(i), cell_id),
    decreases index.len() - i,
{
    if i < index.len() {
        assert(index.take(i + 1).drop_last() =~= index.take(i));
        lemma_name_prefix(index, cell_id, i + 1);
    } else {
        assert(index.take(i) =~= index);
    }
}

/// The name under which a cell is listed, if it is.
pub fn fqn_of_cell<'a>(map: &'a TextMap<String>, cell_id: &str) -> (r: Option<&'a String>)
    ensures
        match r {
            Some(name) => name_of(index_view(*map), cell_id@) == Some(name@),
            None => name_of(index_view(*map), cell_id@) is None,
        },
{
    let ghost index = index_view(*map);
    let n: usize = map.len();
    let mut i: usize = 0;
    while i < n
        invariant
            i <= n == map.entries().len(),
            index == index_view(*map),
            name_of(index.take(i as int), cell_id@) is None,
        decreases n - i,
    {
        assert(index[i as int] == (map.entries()[i as int].0, map.entries()[i as int].1@));
        assert(index.take(i + 1).drop_last() =~= index.take(i as int));
        if same(map.value_at(i).as_str(), cell_id) {
            proof {
                lemma_name_prefix(index, cell_id@, i + 1);
            }
            return Some(map.key_at(i));
        }
        i = i + 1;
    }
    assert(index.take(i as int) =~= index);
    None
}

/// The first cell with an identifier.
pub open spec fn cell_with(cells: Seq<CellView>, id: Seq<char>) -> Option<int>
    decreases cells.len(),
{
    if cells.len() == 0 {
        None
    } else {
        match cell_with(cells.drop_last(), id) {
            Some(i) => Some(i),
            None => if cells.last().id == id {
                Some(cells.len() - 1)
            } else {
                None
            },
        }
    }
}

pub proof fn lemma_cell_with(cells: Seq<CellView>, id: Seq<char>)
    ensures
        cell_with(cells, id) matches Some(i) ==> 0 <= i < cells.len() && cells[i].id == id,
    decreases cells.len(),
{
    if cells.len() > 0 {
        lemma_cell_with(cells.drop_last(), id);
    }
}

proof fn lemma_cell_prefix(cells: Seq<CellView>, id: Seq<char>, i: int)
    requires
        0 <= i <= cells.len(),
        cell_with(cells.take(i), id) is Some,
    ensures
        cell_with(cells, id) == cell_with(cells.take(i), id),
    decreases cells.len() - i,
{
    if i < cells.len() {
        assert(cells.take(i + 1).drop_last() =~= cells.take(i));
        lemma_cell_prefix(cells, id, i + 1);
    } else {
        assert(cells.take(i) =~= cells);
    }
}

pub open spec fn cell_views(cells: Seq<Cell>) -> Seq<CellView> {
    cells.map_values(|c: Cell| c@)
}

pub fn find_cell(cells: &Vec<Cell>, id: &str) -> (r: Option<usize>)
    ensures
        match r {
            Some(i) => i < cells@.len() && cell_with(cell_views(cells@), id@) == Some(i as int),
            None => cell_with(cell_views(cells@), id@) is None,
        },
{
    let ghost all = cell_views(cells@);
    let mut i: usize = 0;
    while i < cells.len()
        invariant
            i <= cells@.len(),
            all == cell_views(cells@),
            cell_with(all.take(i as int), id@) is None,
        decreases cells.len() - i,
    {
        assert(all[i as int] == cells@[i as int]@);
        assert(all.take(i + 1).drop_last() =~= all.take(i as int));
        if same(cells[i].id.as_str(), id) {
            proof {
                lemma_cell_prefix(all, id@, i + 1);
            }
            return Some(i);
        }
        i = i + 1;
    }
    assert(all.take(i as int) =~= all);
    None
}

/// The first entity with a cell identifier.
pub open spec fn entity_with(entities: Seq<EntityView>, cell_id: Seq<char>) -> Option<int>
    decreases entities.len(),
{
    if entities.len() == 0 {
        None
    } else {
        match entity_with(entities.drop_last(), cell_id) {
            Some(i) => Some(i),
            None => if entities.last().cell_id == cell_id {
                Some(entities.len() - 1)
            } else {
                None
            },
        }
    }
}

pub proof fn lemma_entity_with(entities: Seq<EntityView>, cell_id: Seq<char>)
    ensures
        entity_with(entities, cell_id) matches Some(i) ==> 0 <= i < entities.len() && entities[i].cell_id == cell_id,
    decreases entities.len(),
{
    if entities.len() > 0 {
        lemma_entity_with(entities.drop_last(), cell_id);
    }
}

proof fn lemma_entity_prefix(entities: Seq<EntityView>, cell_id: Seq<char>, i: int)
    requires
        0 <= i <= entities.len(),
        entity_with(entities.take(i), cell_id) is Some,
    ensures
        entity_with(entities, cell_id) == entity_with(entities.take(i), cell_id),
    decreases entities.len() - i,
{
    if i < entities.len() {
        assert(entities.take(i + 1).drop_last() =~= entities.take(i));
        lemma_entity_prefix(entities, cell_id, i + 1);
    } else {
        assert(entities.take(i) =~= entities);
    }
}

pub open spec fn entity_views(entities: Seq<EntityRecord>) -> Seq<EntityView> {
    entities.map_values(|e: EntityRecord| e@)
}

pub fn find_entity(entities: &Vec<EntityRecord>, cell_id: &str) -> (r: Option<usize>)
    ensures
        match r {
            Some(i) => i < entities@.len() && entity_with(entity_views(entities@), cell_id@) == Some(i as int),
            None => entity_with(entity_views(entities@), cell_id@) is None,
        },
{
    let ghost all = entity_views(entities@);
    let mut i: usize = 0;
    while i < entities.len()
        invariant
            i <= entities@.len(),
            all == entity_views(entities@),
            entity_with(all.take(i as int), cell_id@) is None,
        decreases entities.len() - i,
    {
        assert(all[i as int] == entities@[i as int]@);
        assert(all.take(i + 1).drop_last() =~= all.take(i as int));
        if same(entities[i].cell_id.as_str(), cell_id) {
            proof {
                lemma_entity_prefix(all, cell_id@, i + 1);
            }
            return Some(i);
        }
        i = i + 1;
    }
    assert(all.take(i as int) =~= all);
    None
}

/// The message for a symbol that stands for nothing.
pub open spec fn not_found(symbol: Seq<char>) -> Seq<char> {
    "Symbol not found: "@ + symbol
}

pub fn symbol_not_found(symbol: &str) -> (r: String)
    ensures
        r@ == not_found(symbol@),
{
    let mut r = "Symbol not found: ".to_owned();
    r.append(symbol);
    r
}

/// Looking a full name up finds it.
pub proof fn law_exact_name(space: SpaceView, symbol: Seq<char>)
    requires
        lookup(space.index, symbol) is Some,
    ensures
        resolved(space.index, symbol) == Some((symbol, lookup(space.index, symbol)->0)),
{
}

/// What a symbol stands for is listed, under that name or one that ends with a dot and the symbol.
pub proof fn law_resolved_is_listed(space: SpaceView, symbol: Seq<char>)
    requires
        resolved(space.index, symbol) is Some,
    ensures
        space.index.contains(resolved(space.index, symbol)->0),
        resolved(space.index, symbol) matches Some((name, _)) ==> name == symbol || ends(name, "."@ + symbol),
{
    lemma_key_position(space.index, symbol);
    lemma_shortest_ending(space.index, "."@ + symbol);
    match lookup(space.index, symbol) {
        Some(id) => {
            let i = crate::text_map::key_position(space.index, symbol)->0;
            assert(space.index[i] == (symbol, id));
        },
        None => {},
    }
}

} // verus!
