//! What a feature consists of, what is complex, and what is not known.

use vstd::prelude::*;

use crate::lines::{begins, free_at, free_before, lines, trimmed};
use crate::model::entity::JavaEntityType;
use crate::model::graph::{is_less, LinkView};
use crate::model::relation::relation_name;
use crate::model::space_data::{EntityView, SpaceView, UnresolvedView};
use crate::order::{lemma_stable_sorted_contains, stable_sorted};
use crate::query::feature::{
    by_callers, by_methods, by_text, calls_made, class_details, data_classes, entity_named, feature_calls,
    feature_cells, feature_class, feature_entries, feature_of, feature_types, fields_under, members_in, methods_under,
    outside_callers, outside_classes, under_any, FeatureClassView, FeatureEntryPointView,
};
use crate::query::hotspots::{
    all_measured, by_complexity, code_lines, hotspots_in, measured, occurrences, points_in, points_of, HotspotView,
};
use crate::query::names::class_of;
use crate::query::package_laws::{lemma_number, number};
use crate::query::resolve::{cell_with, name_of};
use crate::query::unknowns::{
    doubts_in, in_scope, obstructions_in, unknowns_in, unresolved_in, LowConfidenceEntityView, UnresolvedRefView,
};
use crate::query::usage_laws::holds_loosely;
use crate::seqs::lemma_push_contains;
use crate::text::{decimal_text, find, lemma_find, occurs_at};
use crate::text_map::lookup;

verus! {

/// A type whose name or label holds the keyword.
pub open spec fn is_feature_type(e: EntityView, keyword: Seq<char>) -> bool {
    &&& e.entity_type == JavaEntityType::Class || e.entity_type == JavaEntityType::Interface || e.entity_type
        == JavaEntityType::Enum
    &&& holds_loosely(e.fqn, keyword) || holds_loosely(e.label, keyword)
}

proof fn lemma_feature_types(entities: Seq<EntityView>, keyword: Seq<char>, x: Seq<char>)
    ensures
        feature_types(entities, keyword).contains(x) <==> exists|i: int|
            0 <= i < entities.len() && is_feature_type(#[trigger] entities[i], keyword) && entities[i].fqn == x,
    decreases entities.len(),
{
    if entities.len() > 0 {
        let front = entities.drop_last();
        let e = entities.last();
        lemma_feature_types(front, keyword, x);
        lemma_find(crate::text::lowercase(e.fqn), keyword, 0);
        lemma_find(crate::text::lowercase(e.label), keyword, 0);
        let before = feature_types(front, keyword);
        lemma_push_contains(before, e.fqn);
        assert forall|i: int| 0 <= i < front.len() implies #[trigger] entities[i] == front[i] by {}
        assert(entities[entities.len() - 1] == e);
        if before.contains(x) {
            let i = choose|i: int|
                0 <= i < front.len() && is_feature_type(#[trigger] front[i], keyword) && front[i].fqn == x;
            assert(is_feature_type(entities[i], keyword));
        }
    }
}

/// The entity is a part of the feature: its name starts with that of one of the
/// types.
pub open spec fn is_part(entities: Seq<EntityView>, keyword: Seq<char>, e: EntityView) -> bool {
    exists|i: int|
        0 <= i < entities.len() && is_feature_type(#[trigger] entities[i], keyword) && begins(e.fqn, entities[i].fqn)
}

/// The cell is that of a part of the feature.
pub open spec fn is_inside(entities: Seq<EntityView>, keyword: Seq<char>, id: Seq<char>) -> bool {
    exists|i: int| 0 <= i < entities.len() && is_part(entities, keyword, #[trigger] entities[i]) && entities[i].cell_id == id
}

proof fn lemma_under(all: Seq<EntityView>, keyword: Seq<char>, e: EntityView)
    ensures
        under_any(e.fqn, feature_types(all, keyword)) == is_part(all, keyword, e),
{
    let types = feature_types(all, keyword);
    if under_any(e.fqn, types) {
        let k = choose|k: int| 0 <= k < types.len() && begins(e.fqn, #[trigger] types[k]);
        lemma_feature_types(all, keyword, types[k]);
        assert(types.contains(types[k]));
        let i = choose|i: int|
            0 <= i < all.len() && is_feature_type(#[trigger] all[i], keyword) && all[i].fqn == types[k];
        assert(begins(e.fqn, all[i].fqn));
    }
    if is_part(all, keyword, e) {
        let i = choose|i: int|
            0 <= i < all.len() && is_feature_type(#[trigger] all[i], keyword) && begins(e.fqn, all[i].fqn);
        lemma_feature_types(all, keyword, all[i].fqn);
        let k = choose|k: int| 0 <= k < types.len() && types[k] == all[i].fqn;
        assert(begins(e.fqn, types[k]));
    }
}

proof fn lemma_feature_cells(all: Seq<EntityView>, entities: Seq<EntityView>, keyword: Seq<char>, id: Seq<char>)
    ensures
        feature_cells(entities, feature_types(all, keyword)).contains(id) <==> exists|i: int|
            0 <= i < entities.len() && is_part(all, keyword, #[trigger] entities[i]) && entities[i].cell_id == id,
    decreases entities.len(),
{
    if entities.len() > 0 {
        let front = entities.drop_last();
        let e = entities.last();
        lemma_feature_cells(all, front, keyword, id);
        lemma_under(all, keyword, e);
        let before = feature_cells(front, feature_types(all, keyword));
        lemma_push_contains(before, e.cell_id);
        assert forall|i: int| 0 <= i < front.len() implies #[trigger] entities[i] == front[i] by {}
        assert(entities[entities.len() - 1] == e);
        if before.contains(id) {
            let i = choose|i: int|
                0 <= i < front.len() && is_part(all, keyword, #[trigger] front[i]) && front[i].cell_id == id;
            assert(is_part(all, keyword, entities[i]));
        }
    }
}

pub open spec fn is_callable(e: EntityView) -> bool {
    e.entity_type == JavaEntityType::Method || e.entity_type == JavaEntityType::Constructor
}

proof fn lemma_members_under(entities: Seq<EntityView>, fqn: Seq<char>)
    ensures
        methods_under(entities, fqn) == number(
            entities,
            |e: EntityView| is_callable(e) && begins(e.fqn, fqn) && e.fqn != fqn,
        ),
        fields_under(entities, fqn) == number(
            entities,
            |e: EntityView| e.entity_type == JavaEntityType::Field && begins(e.fqn, fqn),
        ),
    decreases entities.len(),
{
    lemma_number(entities, |e: EntityView| is_callable(e) && begins(e.fqn, fqn) && e.fqn != fqn);
    lemma_number(entities, |e: EntityView| e.entity_type == JavaEntityType::Field && begins(e.fqn, fqn));
    if entities.len() > 0 {
        lemma_members_under(entities.drop_last(), fqn);
    }
}

/// What is said of a type of a feature: where it is, and how many methods and
/// fields have names that start with its own.
pub open spec fn tells_class(entities: Seq<EntityView>, e: EntityView, c: FeatureClassView) -> bool {
    &&& c.fqn == e.fqn
    &&& c.label == e.label
    &&& c.file == e.witness.file
    &&& c.line == e.witness.start_line
    &&& c.method_count == number(
        entities,
        |x: EntityView| is_callable(x) && begins(x.fqn, e.fqn) && x.fqn != e.fqn,
    ) as usize
    &&& c.field_count == number(
        entities,
        |x: EntityView| x.entity_type == JavaEntityType::Field && begins(x.fqn, e.fqn),
    ) as usize
}

proof fn lemma_entity_named(entities: Seq<EntityView>, fqn: Seq<char>)
    ensures
        match entity_named(entities, fqn) {
            Some(i) => 0 <= i < entities.len() && entities[i].fqn == fqn,
            None => forall|i: int| 0 <= i < entities.len() ==> (#[trigger] entities[i]).fqn != fqn,
        },
    decreases entities.len(),
{
    if entities.len() > 0 {
        lemma_entity_named(entities.drop_last(), fqn);
        assert forall|i: int| 0 <= i < entities.len() - 1 implies #[trigger] entities[i] == entities.drop_last()[i] by {}
    }
}

proof fn lemma_class_details(entities: Seq<EntityView>, types: Seq<Seq<char>>, n: int, k: int)
    requires
        0 <= k < n <= types.len(),
        exists|i: int| 0 <= i < entities.len() && (#[trigger] entities[i]).fqn == types[k],
    ensures
        exists|j: int, i: int|
            0 <= j < class_details(entities, types, n).len() && 0 <= i < entities.len() && entities[i].fqn == types[k]
                && tells_class(entities, #[trigger] entities[i], #[trigger] class_details(entities, types, n)[j]),
    decreases n,
{
    let all = class_details(entities, types, n);
    let before = class_details(entities, types, n - 1);
    if k == n - 1 {
        lemma_entity_named(entities, types[k]);
        let i = entity_named(entities, types[k])->Some_0;
        lemma_members_under(entities, types[k]);
        assert(all[before.len() as int] == feature_class(entities, entities[i]));
        assert(tells_class(entities, entities[i], all[before.len() as int]));
    } else {
        lemma_class_details(entities, types, n - 1, k);
        let (j, i) = choose|j: int, i: int|
            0 <= j < before.len() && 0 <= i < entities.len() && entities[i].fqn == types[k] && tells_class(
                entities,
                #[trigger] entities[i],
                #[trigger] before[j],
            );
        assert(all[j] == before[j]);
        assert(tells_class(entities, entities[i], all[j]));
    }
}

/// A feature is found exactly when some type is named after it; every such type
/// is listed, with the numbers of its methods and fields.
pub proof fn law_feature_types(space: SpaceView, keyword: Seq<char>, keyword_lower: Seq<char>, i: int)
    requires
        0 <= i < space.entities.len(),
        is_feature_type(space.entities[i], keyword_lower),
    ensures
        feature_of(space, keyword, keyword_lower) matches Ok(f) && exists|j: int, k: int|
            0 <= j < f.matched_classes.len() && 0 <= k < space.entities.len() && space.entities[k].fqn
                == space.entities[i].fqn && tells_class(
                space.entities,
                #[trigger] space.entities[k],
                #[trigger] f.matched_classes[j],
            ),
{
    let types = feature_types(space.entities, keyword_lower);
    let fqn = space.entities[i].fqn;
    lemma_feature_types(space.entities, keyword_lower, fqn);
    assert(types.contains(fqn));
    let k = choose|k: int| 0 <= k < types.len() && types[k] == fqn;
    lemma_class_details(space.entities, types, types.len() as int, k);
    let all = class_details(space.entities, types, types.len() as int);
    let list = stable_sorted(all, by_methods());
    lemma_stable_sorted_contains(all, by_methods());
    let (j, n) = choose|j: int, n: int|
        0 <= j < all.len() && 0 <= n < space.entities.len() && space.entities[n].fqn == types[k] && tells_class(
            space.entities,
            #[trigger] space.entities[n],
            #[trigger] all[j],
        );
    assert(all.contains(all[j]));
    assert(list.contains(all[j]));
    let m = choose|m: int| 0 <= m < list.len() && list[m] == all[j];
    let f = feature_of(space, keyword, keyword_lower)->Ok_0;
    assert(feature_of(space, keyword, keyword_lower) is Ok && f.matched_classes == list);
    assert(tells_class(space.entities, space.entities[n], f.matched_classes[m]));
}

/// Without such a type there is no feature.
pub proof fn law_no_feature(space: SpaceView, keyword: Seq<char>, keyword_lower: Seq<char>)
    requires
        forall|i: int| 0 <= i < space.entities.len() ==> !is_feature_type(#[trigger] space.entities[i], keyword_lower),
    ensures
        feature_of(space, keyword, keyword_lower) == Err::<crate::query::feature::FeatureResultView, Seq<char>>(
            "No classes found matching keyword: "@ + keyword,
        ),
{
    let types = feature_types(space.entities, keyword_lower);
    if types.len() > 0 {
        lemma_feature_types(space.entities, keyword_lower, types[0]);
        assert(types.contains(types[0]));
    }
}

/// A call or construction of the cell from outside the feature.
pub open spec fn calls_in(entities: Seq<EntityView>, keyword: Seq<char>, l: LinkView, id: Seq<char>) -> bool {
    &&& l.relation == "java.calls"@ || l.relation == "java.constructs"@
    &&& l.to == id
    &&& !is_inside(entities, keyword, l.from)
}

pub open spec fn calls_out(l: LinkView, id: Seq<char>) -> bool {
    (l.relation == "java.calls"@ || l.relation == "java.constructs"@) && l.from == id
}

proof fn lemma_outside(
    entities: Seq<EntityView>,
    keyword: Seq<char>,
    links: Seq<LinkView>,
    cells: Seq<Seq<char>>,
    id: Seq<char>,
)
    requires
        forall|x: Seq<char>| #[trigger] cells.contains(x) == is_inside(entities, keyword, x),
    ensures
        outside_callers(links, cells, id) == number(links, |l: LinkView| calls_in(entities, keyword, l, id)),
        calls_made(links, id) == number(links, |l: LinkView| calls_out(l, id)),
    decreases links.len(),
{
    lemma_number(links, |l: LinkView| calls_in(entities, keyword, l, id));
    lemma_number(links, |l: LinkView| calls_out(l, id));
    if links.len() > 0 {
        lemma_outside(entities, keyword, links.drop_last(), cells, id);
        assert(cells.contains(links.last().from) == is_inside(entities, keyword, links.last().from));
    }
}

/// What is said of an entry point: where it is, how many calls come from
/// outside, and how many it makes.
pub open spec fn tells_entry(
    space: SpaceView,
    keyword: Seq<char>,
    e: EntityView,
    x: FeatureEntryPointView,
) -> bool {
    &&& x.fqn == e.fqn
    &&& x.label == e.label
    &&& x.file == e.witness.file
    &&& x.line == e.witness.start_line
    &&& x.caller_count == number(space.links, |l: LinkView| calls_in(space.entities, keyword, l, e.cell_id)) as usize
    &&& x.callee_count == number(space.links, |l: LinkView| calls_out(l, e.cell_id)) as usize
}

/// A method or constructor of the feature that is called from outside.
pub open spec fn is_entry(space: SpaceView, keyword: Seq<char>, e: EntityView) -> bool {
    &&& is_callable(e)
    &&& is_inside(space.entities, keyword, e.cell_id)
    &&& number(space.links, |l: LinkView| calls_in(space.entities, keyword, l, e.cell_id)) > 0
}

proof fn lemma_entries(
    space: SpaceView,
    keyword: Seq<char>,
    entities: Seq<EntityView>,
    cells: Seq<Seq<char>>,
)
    requires
        forall|x: Seq<char>| #[trigger] cells.contains(x) == is_inside(space.entities, keyword, x),
    ensures
        ({
            let all = feature_entries(entities, space.links, cells);
            let own = entities.filter(|e: EntityView| is_entry(space, keyword, e));
            &&& all.len() == own.len()
            &&& forall|i: int| 0 <= i < own.len() ==> tells_entry(space, keyword, #[trigger] own[i], all[i])
        }),
    decreases entities.len(),
{
    reveal(Seq::filter);
    if entities.len() > 0 {
        let front = entities.drop_last();
        let e = entities.last();
        lemma_entries(space, keyword, front, cells);
        lemma_outside(space.entities, keyword, space.links, cells, e.cell_id);
        let p = |e: EntityView| is_entry(space, keyword, e);
        let before = front.filter(p);
        let own = entities.filter(p);
        let all = feature_entries(entities, space.links, cells);
        assert(cells.contains(e.cell_id) == is_inside(space.entities, keyword, e.cell_id));
        assert forall|i: int| 0 <= i < own.len() implies tells_entry(space, keyword, #[trigger] own[i], all[i]) by {
            if i < before.len() {
                assert(own[i] == before[i]);
            }
        }
    }
}

/// The entry points of a feature are its methods and constructors that are
/// called from outside, and no others.
pub proof fn law_feature_entries(space: SpaceView, keyword: Seq<char>, keyword_lower: Seq<char>, i: int, k: int)
    requires
        feature_of(space, keyword, keyword_lower) is Ok,
    ensures
        ({
            let f = feature_of(space, keyword, keyword_lower)->Ok_0;
            &&& 0 <= i < space.entities.len() && is_entry(space, keyword_lower, space.entities[i]) ==> exists|j: int|
                0 <= j < f.entry_points.len() && tells_entry(
                    space,
                    keyword_lower,
                    space.entities[i],
                    #[trigger] f.entry_points[j],
                )
            &&& 0 <= k < f.entry_points.len() ==> exists|j: int|
                0 <= j < space.entities.len() && is_entry(space, keyword_lower, #[trigger] space.entities[j])
                    && tells_entry(space, keyword_lower, space.entities[j], f.entry_points[k])
        }),
{
    let f = feature_of(space, keyword, keyword_lower)->Ok_0;
    let types = feature_types(space.entities, keyword_lower);
    let cells = feature_cells(space.entities, types);
    assert forall|x: Seq<char>| #[trigger] cells.contains(x) == is_inside(space.entities, keyword_lower, x) by {
        lemma_feature_cells(space.entities, space.entities, keyword_lower, x);
    }
    lemma_entries(space, keyword_lower, space.entities, cells);
    let p = |e: EntityView| is_entry(space, keyword_lower, e);
    let own = space.entities.filter(p);
    crate::seqs::lemma_filter_contains(space.entities, p);
    let all = feature_entries(space.entities, space.links, cells);
    lemma_stable_sorted_contains(all, by_callers());
    if 0 <= i < space.entities.len() && is_entry(space, keyword_lower, space.entities[i]) {
        assert(space.entities.contains(space.entities[i]));
        assert(own.contains(space.entities[i]));
        let j = choose|j: int| 0 <= j < own.len() && own[j] == space.entities[i];
        assert(tells_entry(space, keyword_lower, own[j], all[j]));
        assert(all.contains(all[j]));
        assert(f.entry_points.contains(all[j]));
        let m = choose|m: int| 0 <= m < f.entry_points.len() && f.entry_points[m] == all[j];
        assert(tells_entry(space, keyword_lower, space.entities[i], f.entry_points[m]));
    }
    if 0 <= k < f.entry_points.len() {
        assert(f.entry_points.contains(f.entry_points[k]));
        assert(all.contains(f.entry_points[k]));
        let j = choose|j: int| 0 <= j < all.len() && all[j] == f.entry_points[k];
        assert(tells_entry(space, keyword_lower, own[j], all[j]));
        assert(own.contains(own[j]));
        assert(p(own[j]));
        let m = choose|m: int| 0 <= m < space.entities.len() && space.entities[m] == own[j];
        assert(is_entry(space, keyword_lower, space.entities[m]));
    }
}

/// A relation other than containment that stays inside the feature.
pub open spec fn is_internal(space: SpaceView, keyword: Seq<char>, l: LinkView) -> bool {
    &&& l.relation != "java.contained_in"@
    &&& is_inside(space.entities, keyword, l.from)
    &&& is_inside(space.entities, keyword, l.to)
}

/// A relation other than containment that leaves the feature for a named cell.
pub open spec fn leaves(space: SpaceView, keyword: Seq<char>, l: LinkView, class: Seq<char>) -> bool {
    &&& l.relation != "java.contained_in"@
    &&& is_inside(space.entities, keyword, l.from)
    &&& !is_inside(space.entities, keyword, l.to)
    &&& name_of(space.index, l.to) matches Some(name) && name.len() > 0 && class == class_of(name)
}

proof fn lemma_links(
    space: SpaceView,
    keyword: Seq<char>,
    links: Seq<LinkView>,
    cells: Seq<Seq<char>>,
    class: Seq<char>,
)
    requires
        forall|x: Seq<char>| #[trigger] cells.contains(x) == is_inside(space.entities, keyword, x),
    ensures
        ({
            let all = feature_calls(space.index, links, cells);
            let own = links.filter(|l: LinkView| is_internal(space, keyword, l));
            &&& all.len() == own.len()
            &&& forall|i: int|
                0 <= i < own.len() ==> all[i].relation_type == (#[trigger] own[i]).relation && (name_of(
                    space.index,
                    own[i].from,
                ) matches Some(n) ==> all[i].from == n) && (name_of(space.index, own[i].to) matches Some(n)
                    ==> all[i].to == n)
        }),
        outside_classes(space.index, links, cells).contains(class) <==> exists|i: int|
            0 <= i < links.len() && leaves(space, keyword, #[trigger] links[i], class),
    decreases links.len(),
{
    reveal(Seq::filter);
    if links.len() > 0 {
        let front = links.drop_last();
        let l = links.last();
        lemma_links(space, keyword, front, cells, class);
        assert(cells.contains(l.from) == is_inside(space.entities, keyword, l.from));
        assert(cells.contains(l.to) == is_inside(space.entities, keyword, l.to));
        let p = |l: LinkView| is_internal(space, keyword, l);
        let before = front.filter(p);
        let own = links.filter(p);
        let all = feature_calls(space.index, links, cells);
        assert forall|i: int| 0 <= i < own.len() implies all[i].relation_type == (#[trigger] own[i]).relation && (
        name_of(space.index, own[i].from) matches Some(n) ==> all[i].from == n) && (name_of(
            space.index,
            own[i].to,
        ) matches Some(n) ==> all[i].to == n) by {
            if i < before.len() {
                assert(own[i] == before[i]);
            }
        }
        let was = outside_classes(space.index, front, cells);
        assert forall|i: int| 0 <= i < front.len() implies #[trigger] links[i] == front[i] by {}
        assert(links[links.len() - 1] == l);
        if let Some(name) = name_of(space.index, l.to) {
            lemma_push_contains(was, class_of(name));
        }
        if was.contains(class) {
            let i = choose|i: int| 0 <= i < front.len() && leaves(space, keyword, #[trigger] front[i], class);
            assert(leaves(space, keyword, links[i], class));
        }
    }
}

proof fn lemma_members_in(space: SpaceView, keyword: Seq<char>, entities: Seq<EntityView>, cells: Seq<Seq<char>>)
    requires
        forall|x: Seq<char>| #[trigger] cells.contains(x) == is_inside(space.entities, keyword, x),
    ensures
        members_in(entities, cells, false) == number(
            entities,
            |e: EntityView| is_callable(e) && is_inside(space.entities, keyword, e.cell_id),
        ),
        members_in(entities, cells, true) == number(
            entities,
            |e: EntityView| e.entity_type == JavaEntityType::Field && is_inside(space.entities, keyword, e.cell_id),
        ),
    decreases entities.len(),
{
    lemma_number(entities, |e: EntityView| is_callable(e) && is_inside(space.entities, keyword, e.cell_id));
    lemma_number(
        entities,
        |e: EntityView| e.entity_type == JavaEntityType::Field && is_inside(space.entities, keyword, e.cell_id),
    );
    if entities.len() > 0 {
        lemma_members_in(space, keyword, entities.drop_last(), cells);
        assert(cells.contains(entities.last().cell_id) == is_inside(space.entities, keyword, entities.last().cell_id));
    }
}

proof fn lemma_data_classes(classes: Seq<FeatureClassView>, x: Seq<char>)
    ensures
        data_classes(classes).contains(x) <==> exists|i: int|
            0 <= i < classes.len() && (#[trigger] classes[i]).fqn == x && classes[i].field_count >= 3
                && classes[i].field_count > classes[i].method_count / 2,
    decreases classes.len(),
{
    if classes.len() > 0 {
        let front = classes.drop_last();
        lemma_data_classes(front, x);
        let before = data_classes(front);
        lemma_push_contains(before, classes.last().fqn);
        assert forall|i: int| 0 <= i < front.len() implies #[trigger] classes[i] == front[i] by {}
        assert(classes[classes.len() - 1] == classes.last());
        if before.contains(x) {
            let i = choose|i: int|
                0 <= i < front.len() && (#[trigger] front[i]).fqn == x && front[i].field_count >= 3
                    && front[i].field_count > front[i].method_count / 2;
            assert(classes[i].fqn == x);
        }
    }
}

/// What a feature calls inside and outside, which of its types hold data, and
/// how many methods and fields it has.
pub proof fn law_feature_relations(
    space: SpaceView,
    keyword: Seq<char>,
    keyword_lower: Seq<char>,
    class: Seq<char>,
    i: int,
)
    requires
        feature_of(space, keyword, keyword_lower) is Ok,
    ensures
        ({
            let f = feature_of(space, keyword, keyword_lower)->Ok_0;
            let own = space.links.filter(|l: LinkView| is_internal(space, keyword_lower, l));
            &&& f.internal_calls.len() == own.len()
            &&& 0 <= i < own.len() ==> f.internal_calls[i].relation_type == own[i].relation && (name_of(
                space.index,
                own[i].from,
            ) matches Some(n) ==> f.internal_calls[i].from == n) && (name_of(space.index, own[i].to) matches Some(n)
                ==> f.internal_calls[i].to == n)
            &&& f.external_dependencies.contains(class) <==> exists|k: int|
                0 <= k < space.links.len() && leaves(space, keyword_lower, #[trigger] space.links[k], class)
            &&& f.data_entities.contains(class) <==> exists|k: int|
                0 <= k < f.matched_classes.len() && (#[trigger] f.matched_classes[k]).fqn == class
                    && f.matched_classes[k].field_count >= 3 && f.matched_classes[k].field_count
                    > f.matched_classes[k].method_count / 2
            &&& f.total_methods == number(
                space.entities,
                |e: EntityView| is_callable(e) && is_inside(space.entities, keyword_lower, e.cell_id),
            ) as usize
            &&& f.total_fields == number(
                space.entities,
                |e: EntityView|
                    e.entity_type == JavaEntityType::Field && is_inside(space.entities, keyword_lower, e.cell_id),
            ) as usize
        }),
{
    let f = feature_of(space, keyword, keyword_lower)->Ok_0;
    let types = feature_types(space.entities, keyword_lower);
    let cells = feature_cells(space.entities, types);
    assert forall|x: Seq<char>| #[trigger] cells.contains(x) == is_inside(space.entities, keyword_lower, x) by {
        lemma_feature_cells(space.entities, space.entities, keyword_lower, x);
    }
    lemma_links(space, keyword_lower, space.links, cells, class);
    lemma_members_in(space, keyword_lower, space.entities, cells);
    lemma_data_classes(f.matched_classes, class);
    lemma_stable_sorted_contains(outside_classes(space.index, space.links, cells), by_text());
}

/// The number of positions from `i` on where a word stands on its own.
pub open spec fn words_from(s: Seq<char>, word: Seq<char>, i: int) -> nat
    decreases s.len() - i,
{
    if i < 0 || i >= s.len() {
        0
    } else {
        words_from(s, word, i + 1) + if occurs_at(s, word, i) && free_before(s, i) && free_at(s, i + word.len()) {
            1nat
        } else {
            0nat
        }
    }
}

/// The number of pairs of the character from `i` on, none sharing a place.
pub open spec fn doubles_from(s: Seq<char>, c: char, i: int) -> nat
    decreases s.len() - i,
{
    if i < 0 || i + 1 >= s.len() {
        0
    } else if s[i] == c && s[i + 1] == c {
        doubles_from(s, c, i + 2) + 1
    } else {
        doubles_from(s, c, i + 1)
    }
}

proof fn lemma_no_words(s: Seq<char>, word: Seq<char>, i: int, k: int)
    requires
        0 <= i <= k <= s.len(),
        forall|j: int|
            i <= j < k ==> !(#[trigger] occurs_at(s, word, j) && free_before(s, j) && free_at(s, j + word.len())),
    ensures
        words_from(s, word, i) == words_from(s, word, k),
    decreases k - i,
{
    if i < k {
        assert(!(occurs_at(s, word, i) && free_before(s, i) && free_at(s, i + word.len())));
        lemma_no_words(s, word, i + 1, k);
    }
}

/// No part of the word from the inside is a beginning of it.
pub open spec fn stands_apart(word: Seq<char>) -> bool {
    forall|d: int| 0 < d < word.len() ==> #[trigger] word.skip(d) != word.take(word.len() - d)
}

proof fn lemma_words(s: Seq<char>, word: Seq<char>, from: int)
    requires
        0 <= from <= s.len(),
        word.len() > 0,
        stands_apart(word),
    ensures
        occurrences(s, word, from, true) == words_from(s, word, from),
    decreases s.len() - from,
{
    lemma_find(s, word, from);
    match find(s, word, from) {
        None => {
            lemma_no_words(s, word, from, s.len() as int);
        },
        Some(i) => {
            let next = i + word.len();
            lemma_words(s, word, next);
            lemma_no_words(s, word, from, i);
            assert forall|j: int| i < j < next implies !(#[trigger] occurs_at(s, word, j) && free_before(s, j)
                && free_at(s, j + word.len())) by {
                let d = j - i;
                if occurs_at(s, word, j) {
                    assert forall|m: int| 0 <= m < word.len() - d implies word.skip(d)[m] == word.take(
                        word.len() - d,
                    )[m] by {
                        assert(s.subrange(i, next)[d + m] == s[j + m]);
                        assert(s.subrange(j, j + word.len())[m] == s[j + m]);
                    }
                    assert(word.skip(d) =~= word.take(word.len() - d));
                }
            }
            lemma_no_words(s, word, i + 1, next);
        },
    }
}

proof fn lemma_doubles(s: Seq<char>, c: char, from: int)
    requires
        0 <= from <= s.len(),
    ensures
        occurrences(s, seq![c, c], from, false) == doubles_from(s, c, from),
    decreases s.len() - from,
{
    let pair = seq![c, c];
    lemma_find(s, pair, from);
    match find(s, pair, from) {
        None => {
            lemma_no_doubles(s, c, pair, from, s.len() as int);
        },
        Some(i) => {
            lemma_no_doubles(s, c, pair, from, i);
            assert(s.subrange(i, i + 2)[0] == s[i] && s.subrange(i, i + 2)[1] == s[i + 1]);
            lemma_doubles(s, c, i + 2);
        },
    }
}

proof fn lemma_no_doubles(s: Seq<char>, c: char, pair: Seq<char>, i: int, k: int)
    requires
        0 <= i <= k <= s.len(),
        pair == seq![c, c],
        forall|j: int| i <= j < k ==> !#[trigger] occurs_at(s, pair, j),
    ensures
        doubles_from(s, c, i) == doubles_from(s, c, k),
    decreases k - i,
{
    if i < k {
        assert(!occurs_at(s, pair, i));
        if i + 1 < s.len() && s[i] == c && s[i + 1] == c {
            assert(s.subrange(i, i + 2) =~= pair);
        }
        lemma_no_doubles(s, c, pair, i + 1, k);
        if i + 1 >= s.len() {
            assert(doubles_from(s, c, k) == 0);
        }
    }
}

proof fn lemma_word_chars()
    ensures
        "if"@.len() > 0 && stands_apart("if"@),
        "for"@.len() > 0 && stands_apart("for"@),
        "while"@.len() > 0 && stands_apart("while"@),
        "case"@.len() > 0 && stands_apart("case"@),
        "catch"@.len() > 0 && stands_apart("catch"@),
        "&&"@ == seq!['&', '&'],
        "||"@ == seq!['|', '|'],
{
    reveal_strlit("if");
    reveal_strlit("for");
    reveal_strlit("while");
    reveal_strlit("case");
    reveal_strlit("catch");
    reveal_strlit("&&");
    reveal_strlit("||");
    assert("&&"@ =~= seq!['&', '&']);
    assert("||"@ =~= seq!['|', '|']);
    assert forall|d: int| 0 < d < "if"@.len() implies #[trigger] "if"@.skip(d) != "if"@.take("if"@.len() - d) by {
        assert("if"@.skip(d)[0] == "if"@[d]);
        assert("if"@.take("if"@.len() - d)[0] == "if"@[0]);
    }
    assert forall|d: int| 0 < d < "for"@.len() implies #[trigger] "for"@.skip(d) != "for"@.take("for"@.len() - d) by {
        assert("for"@.skip(d)[0] == "for"@[d]);
        assert("for"@.take("for"@.len() - d)[0] == "for"@[0]);
    }
    assert forall|d: int| 0 < d < "while"@.len() implies #[trigger] "while"@.skip(d) != "while"@.take("while"@.len() - d) by {
        assert("while"@.skip(d)[0] == "while"@[d]);
        assert("while"@.take("while"@.len() - d)[0] == "while"@[0]);
    }
    assert forall|d: int| 0 < d < "case"@.len() implies #[trigger] "case"@.skip(d) != "case"@.take("case"@.len() - d) by {
        assert("case"@.skip(d)[0] == "case"@[d]);
        assert("case"@.take("case"@.len() - d)[0] == "case"@[0]);
    }
    assert forall|d: int| 0 < d < "catch"@.len() implies #[trigger] "catch"@.skip(d) != "catch"@.take("catch"@.len() - d) by {
        assert("catch"@.skip(d)[0] == "catch"@[d]);
        assert("catch"@.take("catch"@.len() - d)[0] == "catch"@[0]);
        if d == 3 {
            assert("catch"@.skip(d)[1] == 'h');
            assert("catch"@.take("catch"@.len() - d)[1] == 'a');
        }
    }
}

/// The decisions on a line: each of the words that start a decision where it
/// stands on its own, and each `&&` and `||`.
pub proof fn law_decision_points(line: Seq<char>)
    ensures
        points_in(line) == words_from(line, "if"@, 0) + words_from(line, "for"@, 0) + words_from(line, "while"@, 0)
            + words_from(line, "case"@, 0) + words_from(line, "catch"@, 0) + doubles_from(line, '&', 0) + doubles_from(
            line,
            '|',
            0,
        ),
{
    lemma_word_chars();
    lemma_words(line, "if"@, 0);
    lemma_words(line, "for"@, 0);
    lemma_words(line, "while"@, 0);
    lemma_words(line, "case"@, 0);
    lemma_words(line, "catch"@, 0);
    lemma_doubles(line, '&', 0);
    lemma_doubles(line, '|', 0);
}

/// A line that is neither blank nor a comment.
pub open spec fn is_statement(line: Seq<char>) -> bool {
    let t = trimmed(line);
    t.len() > 0 && !occurs_at(t, "//"@, 0) && !occurs_at(t, "*"@, 0) && !occurs_at(t, "/*"@, 0)
}

/// The decisions on all lines.
pub open spec fn decisions(body: Seq<Seq<char>>) -> nat
    decreases body.len(),
{
    if body.len() == 0 {
        0
    } else {
        let line = body.last();
        decisions(body.drop_last()) + words_from(line, "if"@, 0) + words_from(line, "for"@, 0) + words_from(
            line,
            "while"@,
            0,
        ) + words_from(line, "case"@, 0) + words_from(line, "catch"@, 0) + doubles_from(line, '&', 0) + doubles_from(
            line,
            '|',
            0,
        )
    }
}

proof fn lemma_body(body: Seq<Seq<char>>)
    ensures
        code_lines(body) == number(body, |line: Seq<char>| is_statement(line)),
        decisions(body) <= usize::MAX ==> points_of(body) == decisions(body),
    decreases body.len(),
{
    lemma_number(body, |line: Seq<char>| is_statement(line));
    if body.len() > 0 {
        lemma_body(body.drop_last());
        law_decision_points(body.last());
    }
}

/// The lines of the method are there, and it is the one that is measured.
pub open spec fn is_measurable(e: EntityView, sources: Seq<(Seq<char>, Seq<char>)>) -> bool {
    is_callable(e) && lookup(sources, e.witness.file) is Some && 0 < e.witness.start_line <= e.witness.end_line
}

/// The lines from the first to the last one of an entity, as far as the text
/// goes.
pub open spec fn lines_between(content: Seq<char>, start: int, end: int) -> Seq<Seq<char>> {
    let all = lines(content);
    Seq::new(
        if end <= all.len() {
            (end - start + 1) as nat
        } else if start <= all.len() {
            (all.len() - start + 1) as nat
        } else {
            0
        },
        |k: int| all[start - 1 + k],
    )
}

/// What is measured of a method: its lines that hold code, and one more than
/// the decisions in it.
pub open spec fn measures(e: EntityView, sources: Seq<(Seq<char>, Seq<char>)>, h: HotspotView) -> bool {
    let body = lines_between(
        lookup(sources, e.witness.file)->0,
        e.witness.start_line as int,
        e.witness.end_line as int,
    );
    &&& h.fqn == e.fqn
    &&& h.file == e.witness.file
    &&& h.start_line == e.witness.start_line
    &&& h.end_line == e.witness.end_line
    &&& h.loc == number(body, |line: Seq<char>| is_statement(line)) as usize
    &&& decisions(body) < usize::MAX ==> h.complexity == decisions(body) + 1
}

proof fn lemma_measured(e: EntityView, sources: Seq<(Seq<char>, Seq<char>)>)
    ensures
        match measured(e, sources) {
            Some(h) => is_measurable(e, sources) && measures(e, sources, h),
            None => !is_measurable(e, sources),
        },
{
    if let Some(content) = lookup(sources, e.witness.file) {
        if e.witness.start_line > 0 && e.witness.end_line >= e.witness.start_line {
            let start = e.witness.start_line as int;
            let end = e.witness.end_line as int;
            let body = lines_between(content, start, end);
            assert(crate::query::hotspots::body_lines(content, start, end) =~= body);
            lemma_body(body);
        }
    }
}

proof fn lemma_all_measured(entities: Seq<EntityView>, sources: Seq<(Seq<char>, Seq<char>)>)
    ensures
        ({
            let all = all_measured(entities, sources);
            let own = entities.filter(|e: EntityView| is_measurable(e, sources));
            &&& all.len() == own.len()
            &&& forall|i: int| 0 <= i < own.len() ==> measures(#[trigger] own[i], sources, all[i])
        }),
    decreases entities.len(),
{
    reveal(Seq::filter);
    if entities.len() > 0 {
        let front = entities.drop_last();
        lemma_all_measured(front, sources);
        lemma_measured(entities.last(), sources);
        let p = |e: EntityView| is_measurable(e, sources);
        let before = front.filter(p);
        let own = entities.filter(p);
        let all = all_measured(entities, sources);
        assert forall|i: int| 0 <= i < own.len() implies measures(#[trigger] own[i], sources, all[i]) by {
            if i < before.len() {
                assert(own[i] == before[i]);
            }
        }
    }
}

/// Every method and constructor whose text is there is measured, and every
/// hotspot is one of them; below the limit all are listed.
pub proof fn law_hotspots_measured(
    space: SpaceView,
    sources: Seq<(Seq<char>, Seq<char>)>,
    limit: usize,
    i: int,
    k: int,
)
    requires
        sources.len() > 0,
        space.entities.len() <= usize::MAX,
    ensures
        hotspots_in(space, sources, limit) matches Ok(r) && {
            &&& r.methods_analyzed == number(space.entities, |e: EntityView| is_measurable(e, sources))
            &&& 0 <= k < r.hotspots.len() ==> exists|j: int|
                0 <= j < space.entities.len() && is_measurable(#[trigger] space.entities[j], sources) && measures(
                    space.entities[j],
                    sources,
                    r.hotspots[k],
                )
            &&& r.methods_analyzed <= limit && 0 <= i < space.entities.len() && is_measurable(
                space.entities[i],
                sources,
            ) ==> exists|j: int|
                0 <= j < r.hotspots.len() && measures(space.entities[i], sources, #[trigger] r.hotspots[j])
        },
{
    let r = hotspots_in(space, sources, limit)->Ok_0;
    let all = all_measured(space.entities, sources);
    let p = |e: EntityView| is_measurable(e, sources);
    let own = space.entities.filter(p);
    lemma_all_measured(space.entities, sources);
    lemma_number(space.entities, p);
    crate::seqs::lemma_filter_contains(space.entities, p);
    crate::order::lemma_stable_sorted(all, by_complexity());
    lemma_stable_sorted_contains(all, by_complexity());
    let list = stable_sorted(all, by_complexity());
    if 0 <= k < r.hotspots.len() {
        assert(list.contains(list[k]));
        assert(all.contains(r.hotspots[k]));
        let j = choose|j: int| 0 <= j < all.len() && all[j] == r.hotspots[k];
        assert(measures(own[j], sources, all[j]));
        assert(own.contains(own[j]));
        assert(p(own[j]));
        let m = choose|m: int| 0 <= m < space.entities.len() && space.entities[m] == own[j];
        assert(is_measurable(space.entities[m], sources));
    }
    if all.len() <= limit && 0 <= i < space.entities.len() && is_measurable(space.entities[i], sources) {
        assert(space.entities.contains(space.entities[i]));
        assert(own.contains(space.entities[i]));
        let j = choose|j: int| 0 <= j < own.len() && own[j] == space.entities[i];
        assert(measures(own[j], sources, all[j]));
        assert(all.contains(all[j]));
        assert(list.contains(all[j]));
        let m = choose|m: int| 0 <= m < list.len() && list[m] == all[j];
        assert(measures(space.entities[i], sources, r.hotspots[m]));
    }
}

/// The text holds the scope, if there is one.
pub open spec fn is_asked(text: Seq<char>, scope: Option<Seq<char>>) -> bool {
    scope matches Some(s) ==> holds_loosely(text, s)
}

proof fn lemma_asked(text: Seq<char>, scope: Option<Seq<char>>)
    ensures
        in_scope(text, scope) == is_asked(text, scope),
{
    if let Some(s) = scope {
        lemma_find(crate::text::lowercase(text), s, 0);
    }
}

proof fn lemma_unknown_lists(space: SpaceView, scope: Option<Seq<char>>, o: Seq<Seq<char>>, u: Seq<UnresolvedView>)
    ensures
        obstructions_in(o, scope) == o.filter(|t: Seq<char>| is_asked(t, scope)),
        unresolved_in(u, scope) == u.filter(
            |x: UnresolvedView| is_asked(x.from_fqn, scope) || is_asked(x.target_text, scope),
        ).map_values(|x: UnresolvedView| UnresolvedRefView { message: open_text(x) }),
    decreases o.len() + u.len(),
{
    reveal(Seq::filter);
    let p = |x: UnresolvedView| is_asked(x.from_fqn, scope) || is_asked(x.target_text, scope);
    let f = |x: UnresolvedView| UnresolvedRefView { message: open_text(x) };
    if o.len() > 0 {
        lemma_unknown_lists(space, scope, o.drop_last(), u);
        lemma_asked(o.last(), scope);
    } else if u.len() > 0 {
        lemma_unknown_lists(space, scope, o, u.drop_last());
        let x = u.last();
        lemma_asked(x.from_fqn, scope);
        lemma_asked(x.target_text, scope);
        assert(unresolved_in(u, scope) =~= u.filter(p).map_values(f));
    } else {
        assert(unresolved_in(u, scope) =~= u.filter(p).map_values(f));
    }
}

/// What is said of the use of an unknown name.
pub open spec fn open_text(u: UnresolvedView) -> Seq<char> {
    "Unresolved "@ + relation_name(u.relation_type) + ": "@ + u.from_fqn + " → "@ + u.target_text + " ("@ + u.file
        + ":"@ + decimal_text(u.line as nat) + ")"@
}

/// An entity that is not sure: its cell has no provenance, or one that is less
/// than half sure.
pub open spec fn is_unsure(space: SpaceView, e: EntityView) -> bool {
    cell_with(space.cells, e.cell_id) matches Some(i) && (space.cells[i].provenance matches Some(p)
        ==> is_less(p.confidence.bits, 0x3fe0_0000_0000_0000))
}

/// What is said of an unsure entity.
pub open spec fn tells_unsure(space: SpaceView, e: EntityView, d: LowConfidenceEntityView) -> bool {
    let i = cell_with(space.cells, e.cell_id)->Some_0;
    &&& d.fqn == e.fqn
    &&& match space.cells[i].provenance {
        Some(p) => d.confidence == p.confidence && d.reason == "Low corroboration confidence"@,
        None => d.confidence.bits == 0 && d.reason == "No provenance"@,
    }
}

proof fn lemma_doubts(space: SpaceView, entities: Seq<EntityView>, scope: Option<Seq<char>>)
    ensures
        ({
            let all = doubts_in(entities, space.cells, scope);
            let own = entities.filter(|e: EntityView| is_unsure(space, e) && is_asked(e.fqn, scope));
            &&& all.len() == own.len()
            &&& forall|i: int| 0 <= i < own.len() ==> tells_unsure(space, #[trigger] own[i], all[i])
        }),
    decreases entities.len(),
{
    reveal(Seq::filter);
    if entities.len() > 0 {
        let front = entities.drop_last();
        let e = entities.last();
        lemma_doubts(space, front, scope);
        lemma_asked(e.fqn, scope);
        let p = |e: EntityView| is_unsure(space, e) && is_asked(e.fqn, scope);
        let before = front.filter(p);
        let own = entities.filter(p);
        let all = doubts_in(entities, space.cells, scope);
        assert forall|i: int| 0 <= i < own.len() implies tells_unsure(space, #[trigger] own[i], all[i]) by {
            if i < before.len() {
                assert(own[i] == before[i]);
            }
        }
    }
}

/// What is not known: the uses of unknown names and the obstructions in the
/// scope, word for word, and the entities in it that are not sure.
pub proof fn law_unknowns(space: SpaceView, scope: Option<Seq<char>>, scope_lower: Option<Seq<char>>, i: int)
    ensures
        ({
            let r = unknowns_in(space, scope, scope_lower);
            let open = space.unresolved.filter(
                |u: UnresolvedView| is_asked(u.from_fqn, scope_lower) || is_asked(u.target_text, scope_lower),
            );
            let unsure = space.entities.filter(|e: EntityView| is_unsure(space, e) && is_asked(e.fqn, scope_lower));
            let hindrances = space.obstructions.filter(|t: Seq<char>| is_asked(t, scope_lower));
            &&& r.unresolved_references.len() == open.len()
            &&& 0 <= i < open.len() ==> r.unresolved_references[i].message == open_text(open[i])
            &&& r.low_confidence_entities.len() == unsure.len()
            &&& 0 <= i < unsure.len() ==> tells_unsure(space, unsure[i], r.low_confidence_entities[i])
            &&& r.obstructions == hindrances
            &&& open.len() + unsure.len() + hindrances.len() <= usize::MAX ==> r.total_unknowns == open.len()
                + unsure.len() + hindrances.len()
            &&& scope matches Some(s) ==> r.scope == s
            &&& scope is None ==> r.scope == "all"@
        }),
{
    lemma_unknown_lists(space, scope_lower, space.obstructions, space.unresolved);
    lemma_doubts(space, space.entities, scope_lower);
}

} // verus!
