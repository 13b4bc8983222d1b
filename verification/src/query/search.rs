//! Search for entities by name.

use vstd::prelude::*;

use crate::lines::{begins, starts_with};
use crate::model::entity::{cell_type_of, entity_type_name, JavaEntityType};
use crate::model::space_data::{EntityView, SpaceData, SpaceView};
use crate::order::{lemma_sorted_map, sort_stable, stable_sorted, total_preorder};
use crate::text::{
    at_most, chars_of, find_from, has, lemma_lex_total, lemma_lex_transitive, lex_le, lowercase, same,
};

verus! {

#[derive(Debug)]
pub struct SearchMatch {
    pub fqn: String,
    pub entity_type: String,
    pub label: String,
    pub file: String,
    pub line: u32,
}

#[verifier::ext_equal]
pub struct SearchMatchView {
    pub fqn: Seq<char>,
    pub entity_type: Seq<char>,
    pub label: Seq<char>,
    pub file: Seq<char>,
    pub line: u32,
}

impl View for SearchMatch {
    type V = SearchMatchView;

    open spec fn view(&self) -> SearchMatchView {
        SearchMatchView {
            fqn: self.fqn@,
            entity_type: self.entity_type@,
            label: self.label@,
            file: self.file@,
            line: self.line,
        }
    }
}

#[derive(Debug)]
pub struct SearchResult {
    pub query: String,
    pub matches: Vec<SearchMatch>,
    pub total_matches: usize,
    pub truncated: bool,
}

#[verifier::ext_equal]
pub struct SearchResultView {
    pub query: Seq<char>,
    pub matches: Seq<SearchMatchView>,
    pub total_matches: usize,
    pub truncated: bool,
}

impl View for SearchResult {
    type V = SearchResultView;

    open spec fn view(&self) -> SearchResultView {
        SearchResultView {
            query: self.query@,
            matches: self.matches@.map_values(|x: SearchMatch| x@),
            total_matches: self.total_matches,
            truncated: self.truncated,
        }
    }
}

/// The lower-case text holds the lower-case pattern.
pub open spec fn holds_ignoring_case(text: Seq<char>, pattern_lower: Seq<char>) -> bool {
    has(lowercase(text), pattern_lower)
}

pub fn contains_ignoring_case(text: &str, pattern_lower: &str) -> (r: bool)
    ensures
        r == holds_ignoring_case(text@, pattern_lower@),
{
    find_from(chars_of(text.to_lowercase().as_str()).as_slice(), pattern_lower, 0).is_some()
}

/// The entity kind is the one that the lower-case filter names.
pub open spec fn kind_matches(entity_type: JavaEntityType, filter_lower: Seq<char>) -> bool {
    lowercase(entity_type_name(entity_type)) == filter_lower || has(cell_type_of(entity_type), filter_lower)
}

fn is_kind(entity_type: JavaEntityType, filter_lower: &str) -> (r: bool)
    ensures
        r == kind_matches(entity_type, filter_lower@),
{
    same(entity_type.name().to_lowercase().as_str(), filter_lower) || find_from(
        chars_of(entity_type.cell_type_str()).as_slice(),
        filter_lower,
        0,
    ).is_some()
}

/// An entity that a search finds. The query and the filter are in lower case.
pub open spec fn is_match(e: EntityView, query_lower: Seq<char>, filter_lower: Option<Seq<char>>) -> bool {
    &&& holds_ignoring_case(e.fqn, query_lower) || holds_ignoring_case(e.label, query_lower)
    &&& match filter_lower {
        Some(t) => kind_matches(e.entity_type, t),
        None => true,
    }
}

pub open spec fn match_of(e: EntityView) -> SearchMatchView {
    SearchMatchView {
        fqn: e.fqn,
        entity_type: cell_type_of(e.entity_type),
        label: e.label,
        file: e.witness.file,
        line: e.witness.start_line,
    }
}

/// All matches in the order of the entities.
pub open spec fn matches_in(entities: Seq<EntityView>, query_lower: Seq<char>, filter_lower: Option<Seq<char>>) -> Seq<
    SearchMatchView,
>
    decreases entities.len(),
{
    if entities.len() == 0 {
        Seq::empty()
    } else {
        let before = matches_in(entities.drop_last(), query_lower, filter_lower);
        if is_match(entities.last(), query_lower, filter_lower) {
            before.push(match_of(entities.last()))
        } else {
            before
        }
    }
}

/// The name or the label starts with the lower-case query.
pub open spec fn is_prefix_match(m: SearchMatchView, query_lower: Seq<char>) -> bool {
    begins(lowercase(m.fqn), query_lower) || begins(lowercase(m.label), query_lower)
}

/// Order of matches: those that start with the query first, then by name.
pub open spec fn match_order(query_lower: Seq<char>) -> spec_fn(SearchMatchView, SearchMatchView) -> bool {
    |a: SearchMatchView, b: SearchMatchView|
        {
            let x = is_prefix_match(a, query_lower);
            let y = is_prefix_match(b, query_lower);
            (x && !y) || (x == y && lex_le(a.fqn, b.fqn))
        }
}

/// The answer to a search; query and filter are given in lower case too.
pub open spec fn searched(
    space: SpaceView,
    query: Seq<char>,
    query_lower: Seq<char>,
    filter_lower: Option<Seq<char>>,
    limit: usize,
) -> SearchResultView {
    let all = stable_sorted(matches_in(space.entities, query_lower, filter_lower), match_order(query_lower));
    SearchResultView {
        query,
        matches: if all.len() > limit {
            all.take(limit as int)
        } else {
            all
        },
        total_matches: all.len() as usize,
        truncated: all.len() > limit,
    }
}

spec fn exec_order(query_lower: Seq<char>) -> spec_fn(SearchMatch, SearchMatch) -> bool {
    |a: SearchMatch, b: SearchMatch| match_order(query_lower)(a@, b@)
}

proof fn lemma_match_order(query_lower: Seq<char>)
    ensures
        total_preorder(exec_order(query_lower)),
{
    let le = exec_order(query_lower);
    assert forall|a: SearchMatch, b: SearchMatch| #[trigger] le(a, b) || le(b, a) by {
        lemma_lex_total(a@.fqn, b@.fqn);
    }
    assert forall|a: SearchMatch, b: SearchMatch, c: SearchMatch| #[trigger]
        le(a, b) && #[trigger] le(b, c) implies le(a, c) by {
        if lex_le(a@.fqn, b@.fqn) && lex_le(b@.fqn, c@.fqn) {
            lemma_lex_transitive(a@.fqn, b@.fqn, c@.fqn);
        }
    }
}

fn has_prefix(m: &SearchMatch, query_lower: &str) -> (r: bool)
    ensures
        r == is_prefix_match(m@, query_lower@),
{
    starts_with(chars_of(m.fqn.as_str().to_lowercase().as_str()).as_slice(), query_lower) || starts_with(
        chars_of(m.label.as_str().to_lowercase().as_str()).as_slice(),
        query_lower,
    )
}

spec fn match_views(v: Seq<SearchMatch>) -> Seq<SearchMatchView> {
    v.map_values(|x: SearchMatch| x@)
}

/// Search with a query and a filter that are in lower case already.
pub fn search_lower(
    space_data: &SpaceData,
    query: &str,
    query_lower: &str,
    filter_lower: Option<&str>,
    limit: usize,
) -> (r: SearchResult)
    ensures
        r@ == searched(
            space_data@,
            query@,
            query_lower@,
            match filter_lower {
                Some(t) => Some(t@),
                None => None,
            },
            limit,
        ),
{
    let ghost space = space_data@;
    let ghost filter = match filter_lower {
        Some(t) => Some(t@),
        None => None,
    };
    let mut found: Vec<SearchMatch> = Vec::new();
    let mut i: usize = 0;
    assert(match_views(found@) =~= matches_in(space.entities.take(0), query_lower@, filter));
    while i < space_data.entities.len()
        invariant
            i <= space_data.entities@.len(),
            space == space_data@,
            filter == match filter_lower {
                Some(t) => Some(t@),
                None => None,
            },
            match_views(found@) == matches_in(space.entities.take(i as int), query_lower@, filter),
        decreases space_data.entities.len() - i,
    {
        let e = &space_data.entities[i];
        assert(space.entities[i as int] == e@);
        assert(space.entities.take(i + 1).drop_last() =~= space.entities.take(i as int));
        let kind_ok = match filter_lower {
            Some(t) => is_kind(e.entity_type, t),
            None => true,
        };
        if (contains_ignoring_case(e.fqn.as_str(), query_lower) || contains_ignoring_case(e.label.as_str(), query_lower))
            && kind_ok {
            let m = SearchMatch {
                fqn: e.fqn.clone(),
                entity_type: e.entity_type.cell_type_str().to_owned(),
                label: e.label.clone(),
                file: e.witness.file.clone(),
                line: e.witness.start_line,
            };
            let ghost before = found@;
            found.push(m);
            assert(match_views(found@) =~= match_views(before).push(m@));
        }
        i = i + 1;
    }
    assert(space.entities.take(i as int) =~= space.entities);
    let compare = |a: &SearchMatch, b: &SearchMatch| -> (t: bool)
        ensures
            t == exec_order(query_lower@)(*a, *b),
        {
            let x = has_prefix(a, query_lower);
            let y = has_prefix(b, query_lower);
            (x && !y) || (x == y && at_most(a.fqn.as_str(), b.fqn.as_str()))
        };
    proof {
        lemma_match_order(query_lower@);
        lemma_sorted_map(
            found@,
            |x: SearchMatch| x@,
            exec_order(query_lower@),
            match_order(query_lower@),
        );
        crate::order::lemma_stable_sorted(match_views(found@), match_order(query_lower@));
    }
    let mut found = sort_stable(found, &compare, Ghost(exec_order(query_lower@)));
    let ghost all = match_views(found@);
    assert(all.len() == found@.len());
    let total: usize = found.len();
    let truncated = total > limit;
    if truncated {
        found.truncate(limit);
        assert(match_views(found@) =~= all.take(limit as int));
    }
    SearchResult { query: query.to_owned(), matches: found, total_matches: total, truncated }
}

/// Entities whose name or label holds the query, ignoring case, optionally
/// of one kind; those that start with it come first.
pub fn search(space_data: &SpaceData, query: &str, entity_type_filter: Option<&str>, limit: usize) -> (r: SearchResult)
    ensures
        r@ == searched(
            space_data@,
            query@,
            lowercase(query@),
            match entity_type_filter {
                Some(t) => Some(lowercase(t@)),
                None => None,
            },
            limit,
        ),
{
    let query_lower = query.to_lowercase();
    match entity_type_filter {
        Some(t) => {
            let filter = t.to_lowercase();
            search_lower(space_data, query, query_lower.as_str(), Some(filter.as_str()), limit)
        },
        None => search_lower(space_data, query, query_lower.as_str(), None, limit),
    }
}

/// Nothing is lost but what the limit cuts off.
pub proof fn law_search_total(
    space: SpaceView,
    query: Seq<char>,
    query_lower: Seq<char>,
    filter_lower: Option<Seq<char>>,
    limit: usize,
)
    requires
        space.entities.len() <= usize::MAX,
    ensures
        searched(space, query, query_lower, filter_lower, limit).total_matches == matches_in(
            space.entities,
            query_lower,
            filter_lower,
        ).len(),
        searched(space, query, query_lower, filter_lower, limit).matches.len() <= limit,
        !searched(space, query, query_lower, filter_lower, limit).truncated ==> searched(
            space,
            query,
            query_lower,
            filter_lower,
            limit,
        ).matches.len() == matches_in(space.entities, query_lower, filter_lower).len(),
{
    let all = matches_in(space.entities, query_lower, filter_lower);
    crate::order::lemma_stable_sorted(all, match_order(query_lower));
    lemma_matches_bound(space.entities, query_lower, filter_lower);
}

proof fn lemma_matches_bound(entities: Seq<EntityView>, query_lower: Seq<char>, filter_lower: Option<Seq<char>>)
    ensures
        matches_in(entities, query_lower, filter_lower).len() <= entities.len(),
    decreases entities.len(),
{
    if entities.len() > 0 {
        lemma_matches_bound(entities.drop_last(), query_lower, filter_lower);
    }
}

} // verus!
