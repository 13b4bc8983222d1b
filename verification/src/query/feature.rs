//! Everything that belongs to a feature, found by a keyword.

use vstd::prelude::*;

use crate::lines::{begins, starts_with};
use crate::model::entity::{cell_type_of, JavaEntityType};
use crate::model::graph::{Incidence, LinkView};
use crate::model::space_data::{EntityRecord, EntityView, SpaceData, SpaceView};
use crate::order::{lemma_sorted_map, sort_stable, stable_sorted, total_preorder};
use crate::query::call_graph::{name_or_empty, or_empty};
use crate::query::explain::{is_call, names_call};
use crate::query::names::{class_name, class_of};
use crate::query::resolve::{entity_views, name_of};
use crate::query::search::{contains_ignoring_case, holds_ignoring_case};
use crate::text::{at_most, chars_of, lemma_lex_total, lemma_lex_transitive, lex_le, lowercase, same, texts};
use crate::text_set::{including, TextSet};

verus! {

#[derive(Debug)]
pub struct FeatureClass {
    pub fqn: String,
    pub label: String,
    pub entity_type: String,
    pub file: String,
    pub line: u32,
    pub method_count: usize,
    pub field_count: usize,
}

#[verifier::ext_equal]
pub struct FeatureClassView {
    pub fqn: Seq<char>,
    pub label: Seq<char>,
    pub entity_type: Seq<char>,
    pub file: Seq<char>,
    pub line: u32,
    pub method_count: usize,
    pub field_count: usize,
}

impl View for FeatureClass {
    type V = FeatureClassView;

    open spec fn view(&self) -> FeatureClassView {
        FeatureClassView {
            fqn: self.fqn@,
            label: self.label@,
            entity_type: self.entity_type@,
            file: self.file@,
            line: self.line,
            method_count: self.method_count,
            field_count: self.field_count,
        }
    }
}

#[derive(Debug)]
pub struct FeatureEntryPoint {
    pub fqn: String,
    pub label: String,
    pub file: String,
    pub line: u32,
    pub caller_count: usize,
    pub callee_count: usize,
}

#[verifier::ext_equal]
pub struct FeatureEntryPointView {
    pub fqn: Seq<char>,
    pub label: Seq<char>,
    pub file: Seq<char>,
    pub line: u32,
    pub caller_count: usize,
    pub callee_count: usize,
}

impl View for FeatureEntryPoint {
    type V = FeatureEntryPointView;

    open spec fn view(&self) -> FeatureEntryPointView {
        FeatureEntryPointView {
            fqn: self.fqn@,
            label: self.label@,
            file: self.file@,
            line: self.line,
            caller_count: self.caller_count,
            callee_count: self.callee_count,
        }
    }
}

#[derive(Debug)]
pub struct FeatureCall {
    pub from: String,
    pub to: String,
    pub relation_type: String,
}

#[verifier::ext_equal]
pub struct FeatureCallView {
    pub from: Seq<char>,
    pub to: Seq<char>,
    pub relation_type: Seq<char>,
}

impl View for FeatureCall {
    type V = FeatureCallView;

    open spec fn view(&self) -> FeatureCallView {
        FeatureCallView {
            from: self.from@,
            to: self.to@,
            relation_type: self.relation_type@,
        }
    }
}

#[derive(Debug)]
pub struct FeatureResult {
    pub keyword: String,
    pub matched_classes: Vec<FeatureClass>,
    pub entry_points: Vec<FeatureEntryPoint>,
    pub internal_calls: Vec<FeatureCall>,
    pub external_dependencies: Vec<String>,
    pub data_entities: Vec<String>,
    pub total_methods: usize,
    pub total_fields: usize,
}

#[verifier::ext_equal]
pub struct FeatureResultView {
    pub keyword: Seq<char>,
    pub matched_classes: Seq<FeatureClassView>,
    pub entry_points: Seq<FeatureEntryPointView>,
    pub internal_calls: Seq<FeatureCallView>,
    pub external_dependencies: Seq<Seq<char>>,
    pub data_entities: Seq<Seq<char>>,
    pub total_methods: usize,
    pub total_fields: usize,
}

impl View for FeatureResult {
    type V = FeatureResultView;

    open spec fn view(&self) -> FeatureResultView {
        FeatureResultView {
            keyword: self.keyword@,
            matched_classes: self.matched_classes@.map_values(|x: FeatureClass| x@),
            entry_points: self.entry_points@.map_values(|x: FeatureEntryPoint| x@),
            internal_calls: self.internal_calls@.map_values(|x: FeatureCall| x@),
            external_dependencies: texts(self.external_dependencies@),
            data_entities: texts(self.data_entities@),
            total_methods: self.total_methods,
            total_fields: self.total_fields,
        }
    }
}

pub open spec fn is_type_kind(kind: JavaEntityType) -> bool {
    kind == JavaEntityType::Class || kind == JavaEntityType::Interface || kind == JavaEntityType::Enum
}

pub open spec fn is_callable_kind(kind: JavaEntityType) -> bool {
    kind == JavaEntityType::Method || kind == JavaEntityType::Constructor
}

pub fn type_like(kind: JavaEntityType) -> (r: bool)
    ensures
        r == is_type_kind(kind),
{
    match kind {
        JavaEntityType::Class => true,
        JavaEntityType::Interface => true,
        JavaEntityType::Enum => true,
        _ => false,
    }
}

pub fn callable(kind: JavaEntityType) -> (r: bool)
    ensures
        r == is_callable_kind(kind),
{
    match kind {
        JavaEntityType::Method => true,
        JavaEntityType::Constructor => true,
        _ => false,
    }
}

/// The types whose name or label holds the keyword.
pub open spec fn feature_types(entities: Seq<EntityView>, keyword_lower: Seq<char>) -> Seq<Seq<char>>
    decreases entities.len(),
{
    if entities.len() == 0 {
        Seq::empty()
    } else {
        let before = feature_types(entities.drop_last(), keyword_lower);
        let e = entities.last();
        if is_type_kind(e.entity_type) && (holds_ignoring_case(e.fqn, keyword_lower) || holds_ignoring_case(
            e.label,
            keyword_lower,
        )) {
            including(before, e.fqn)
        } else {
            before
        }
    }
}

/// The name starts with one of the given names.
pub open spec fn under_any(fqn: Seq<char>, names: Seq<Seq<char>>) -> bool {
    exists|i: int| 0 <= i < names.len() && begins(fqn, #[trigger] names[i])
}

/// The cells of the entities under the given types.
pub open spec fn feature_cells(entities: Seq<EntityView>, types: Seq<Seq<char>>) -> Seq<Seq<char>>
    decreases entities.len(),
{
    if entities.len() == 0 {
        Seq::empty()
    } else {
        let before = feature_cells(entities.drop_last(), types);
        let e = entities.last();
        if under_any(e.fqn, types) {
            including(before, e.cell_id)
        } else {
            before
        }
    }
}

/// The number of methods and constructors under a type.
pub open spec fn methods_under(entities: Seq<EntityView>, fqn: Seq<char>) -> nat
    decreases entities.len(),
{
    if entities.len() == 0 {
        0
    } else {
        let e = entities.last();
        methods_under(entities.drop_last(), fqn) + if begins(e.fqn, fqn) && e.fqn != fqn && is_callable_kind(
            e.entity_type,
        ) {
            1nat
        } else {
            0nat
        }
    }
}

/// The number of fields under a type.
pub open spec fn fields_under(entities: Seq<EntityView>, fqn: Seq<char>) -> nat
    decreases entities.len(),
{
    if entities.len() == 0 {
        0
    } else {
        let e = entities.last();
        fields_under(entities.drop_last(), fqn) + if begins(e.fqn, fqn) && e.entity_type == JavaEntityType::Field {
            1nat
        } else {
            0nat
        }
    }
}

/// The first entity of a name.
pub open spec fn entity_named(entities: Seq<EntityView>, fqn: Seq<char>) -> Option<int>
    decreases entities.len(),
{
    if entities.len() == 0 {
        None
    } else {
        match entity_named(entities.drop_last(), fqn) {
            Some(i) => Some(i),
            None => if entities.last().fqn == fqn {
                Some(entities.len() - 1)
            } else {
                None
            },
        }
    }
}

pub open spec fn feature_class(entities: Seq<EntityView>, e: EntityView) -> FeatureClassView {
    FeatureClassView {
        fqn: e.fqn,
        label: e.label,
        entity_type: cell_type_of(e.entity_type),
        file: e.witness.file,
        line: e.witness.start_line,
        method_count: methods_under(entities, e.fqn) as usize,
        field_count: fields_under(entities, e.fqn) as usize,
    }
}

/// The details of the first `n` types.
pub open spec fn class_details(entities: Seq<EntityView>, types: Seq<Seq<char>>, n: int) -> Seq<FeatureClassView>
    decreases n,
{
    if n <= 0 {
        Seq::empty()
    } else {
        let before = class_details(entities, types, n - 1);
        match entity_named(entities, types[n - 1]) {
            Some(i) => before.push(feature_class(entities, entities[i])),
            None => before,
        }
    }
}

pub open spec fn by_methods() -> spec_fn(FeatureClassView, FeatureClassView) -> bool {
    |a: FeatureClassView, b: FeatureClassView| a.method_count >= b.method_count
}

pub open spec fn by_callers() -> spec_fn(FeatureEntryPointView, FeatureEntryPointView) -> bool {
    |a: FeatureEntryPointView, b: FeatureEntryPointView| a.caller_count >= b.caller_count
}

/// The number of calls of a cell from outside the feature.
pub open spec fn outside_callers(links: Seq<LinkView>, cells: Seq<Seq<char>>, cell_id: Seq<char>) -> nat
    decreases links.len(),
{
    if links.len() == 0 {
        0
    } else {
        let l = links.last();
        outside_callers(links.drop_last(), cells, cell_id) + if l.to == cell_id && is_call(l.relation)
            && !cells.contains(l.from) {
            1nat
        } else {
            0nat
        }
    }
}

/// The number of calls that a cell makes.
pub open spec fn calls_made(links: Seq<LinkView>, cell_id: Seq<char>) -> nat
    decreases links.len(),
{
    if links.len() == 0 {
        0
    } else {
        let l = links.last();
        calls_made(links.drop_last(), cell_id) + if l.from == cell_id && is_call(l.relation) {
            1nat
        } else {
            0nat
        }
    }
}

/// The methods of the feature that are called from outside.
pub open spec fn feature_entries(entities: Seq<EntityView>, links: Seq<LinkView>, cells: Seq<Seq<char>>) -> Seq<
    FeatureEntryPointView,
>
    decreases entities.len(),
{
    if entities.len() == 0 {
        Seq::empty()
    } else {
        let before = feature_entries(entities.drop_last(), links, cells);
        let e = entities.last();
        let callers = outside_callers(links, cells, e.cell_id);
        let callees = calls_made(links, e.cell_id);
        if cells.contains(e.cell_id) && is_callable_kind(e.entity_type) && callers > 0 {
            before.push(
                FeatureEntryPointView {
                    fqn: e.fqn,
                    label: e.label,
                    file: e.witness.file,
                    line: e.witness.start_line,
                    caller_count: callers as usize,
                    callee_count: callees as usize,
                },
            )
        } else {
            before
        }
    }
}

/// The relations inside the feature; containment does not count.
pub open spec fn feature_calls(
    index: Seq<(Seq<char>, Seq<char>)>,
    links: Seq<LinkView>,
    cells: Seq<Seq<char>>,
) -> Seq<FeatureCallView>
    decreases links.len(),
{
    if links.len() == 0 {
        Seq::empty()
    } else {
        let before = feature_calls(index, links.drop_last(), cells);
        let l = links.last();
        if l.relation != "java.contained_in"@ && cells.contains(l.from) && cells.contains(l.to) {
            before.push(
                FeatureCallView {
                    from: or_empty(name_of(index, l.from)),
                    to: or_empty(name_of(index, l.to)),
                    relation_type: l.relation,
                },
            )
        } else {
            before
        }
    }
}

/// The classes outside the feature that it refers to.
pub open spec fn outside_classes(
    index: Seq<(Seq<char>, Seq<char>)>,
    links: Seq<LinkView>,
    cells: Seq<Seq<char>>,
) -> Seq<Seq<char>>
    decreases links.len(),
{
    if links.len() == 0 {
        Seq::empty()
    } else {
        let before = outside_classes(index, links.drop_last(), cells);
        let l = links.last();
        let target = or_empty(name_of(index, l.to));
        if cells.contains(l.from) && !cells.contains(l.to) && l.relation != "java.contained_in"@ && target.len() > 0 {
            including(before, class_of(target))
        } else {
            before
        }
    }
}

/// Texts in ascending order.
pub open spec fn by_text() -> spec_fn(Seq<char>, Seq<char>) -> bool {
    |a: Seq<char>, b: Seq<char>| lex_le(a, b)
}

/// The classes that look like data holders: many fields, few methods.
pub open spec fn data_classes(classes: Seq<FeatureClassView>) -> Seq<Seq<char>>
    decreases classes.len(),
{
    if classes.len() == 0 {
        Seq::empty()
    } else {
        let before = data_classes(classes.drop_last());
        let c = classes.last();
        if c.field_count > c.method_count / 2 && c.field_count >= 3 {
            before.push(c.fqn)
        } else {
            before
        }
    }
}

/// The number of entities of the feature that are callable, or fields.
pub open spec fn members_in(entities: Seq<EntityView>, cells: Seq<Seq<char>>, fields: bool) -> nat
    decreases entities.len(),
{
    if entities.len() == 0 {
        0
    } else {
        let e = entities.last();
        let counts = if fields {
            e.entity_type == JavaEntityType::Field
        } else {
            is_callable_kind(e.entity_type)
        };
        members_in(entities.drop_last(), cells, fields) + if counts && cells.contains(e.cell_id) {
            1nat
        } else {
            0nat
        }
    }
}

/// A feature; the keyword is given in lower case too.
pub open spec fn feature_of(space: SpaceView, keyword: Seq<char>, keyword_lower: Seq<char>) -> Result<
    FeatureResultView,
    Seq<char>,
> {
    let types = feature_types(space.entities, keyword_lower);
    if types.len() == 0 {
        Err("No classes found matching keyword: "@ + keyword)
    } else {
        let cells = feature_cells(space.entities, types);
        let classes = stable_sorted(class_details(space.entities, types, types.len() as int), by_methods());
        Ok(
            FeatureResultView {
                keyword,
                matched_classes: classes,
                entry_points: stable_sorted(feature_entries(space.entities, space.links, cells), by_callers()),
                internal_calls: feature_calls(space.index, space.links, cells),
                external_dependencies: stable_sorted(outside_classes(space.index, space.links, cells), by_text()),
                data_entities: data_classes(classes),
                total_methods: members_in(space.entities, cells, false) as usize,
                total_fields: members_in(space.entities, cells, true) as usize,
            },
        )
    }
}

pub open spec fn feature_result(r: Result<FeatureResult, String>) -> Result<FeatureResultView, Seq<char>> {
    match r {
        Ok(x) => Ok(x@),
        Err(e) => Err(e@),
    }
}

fn find_types(entities: &Vec<EntityRecord>, keyword_lower: &str) -> (r: TextSet)
    ensures
        r.texts() == feature_types(entity_views(entities@), keyword_lower@),
{
    let ghost all = entity_views(entities@);
    let mut r = TextSet::new();
    let mut i: usize = 0;
    while i < entities.len()
        invariant
            i <= entities@.len(),
            all == entity_views(entities@),
            r.texts() == feature_types(all.take(i as int), keyword_lower@),
        decreases entities.len() - i,
    {
        let e = &entities[i];
        assert(all[i as int] == e@);
        assert(all.take(i + 1).drop_last() =~= all.take(i as int));
        if type_like(e.entity_type) && (contains_ignoring_case(e.fqn.as_str(), keyword_lower) || contains_ignoring_case(
            e.label.as_str(),
            keyword_lower,
        )) {
            r.add_text(e.fqn.clone());
        }
        i = i + 1;
    }
    assert(all.take(i as int) =~= all);
    r
}

fn is_under(fqn: &str, types: &TextSet) -> (r: bool)
    ensures
        r == under_any(fqn@, types.texts()),
{
    let chars = chars_of(fqn);
    let n: usize = types.len();
    let mut i: usize = 0;
    while i < n
        invariant
            n == types.texts().len(),
            chars@ == fqn@,
            i <= n,
            forall|j: int| 0 <= j < i ==> !begins(fqn@, #[trigger] types.texts()[j]),
        decreases n - i,
    {
        if starts_with(chars.as_slice(), types.text_at(i).as_str()) {
            assert(begins(fqn@, types.texts()[i as int]));
            return true;
        }
        i = i + 1;
    }
    false
}

fn find_cells(entities: &Vec<EntityRecord>, types: &TextSet) -> (r: TextSet)
    ensures
        r.texts() == feature_cells(entity_views(entities@), types.texts()),
{
    let ghost all = entity_views(entities@);
    let mut r = TextSet::new();
    let mut i: usize = 0;
    while i < entities.len()
        invariant
            i <= entities@.len(),
            all == entity_views(entities@),
            r.texts() == feature_cells(all.take(i as int), types.texts()),
        decreases entities.len() - i,
    {
        let e = &entities[i];
        assert(all[i as int] == e@);
        assert(all.take(i + 1).drop_last() =~= all.take(i as int));
        if is_under(e.fqn.as_str(), types) {
            r.add_text(e.cell_id.clone());
        }
        i = i + 1;
    }
    assert(all.take(i as int) =~= all);
    r
}

fn count_members(entities: &Vec<EntityRecord>, fqn: &str) -> (r: (usize, usize))
    ensures
        r.0 == methods_under(entity_views(entities@), fqn@),
        r.1 == fields_under(entity_views(entities@), fqn@),
{
    let ghost all = entity_views(entities@);
    let mut methods: usize = 0;
    let mut fields: usize = 0;
    let mut i: usize = 0;
    while i < entities.len()
        invariant
            i <= entities@.len(),
            all == entity_views(entities@),
            methods <= i,
            fields <= i,
            methods == methods_under(all.take(i as int), fqn@),
            fields == fields_under(all.take(i as int), fqn@),
        decreases entities.len() - i,
    {
        let e = &entities[i];
        assert(all[i as int] == e@);
        assert(all.take(i + 1).drop_last() =~= all.take(i as int));
        if starts_with(chars_of(e.fqn.as_str()).as_slice(), fqn) {
            if callable(e.entity_type) && !same(e.fqn.as_str(), fqn) {
                methods = methods + 1;
            }
            if e.entity_type == JavaEntityType::Field {
                fields = fields + 1;
            }
        }
        i = i + 1;
    }
    assert(all.take(i as int) =~= all);
    (methods, fields)
}

proof fn lemma_named_prefix(entities: Seq<EntityView>, fqn: Seq<char>, i: int)
    requires
        0 <= i <= entities.len(),
        entity_named(entities.take(i), fqn) is Some,
    ensures
        entity_named(entities, fqn) == entity_named(entities.take(i), fqn),
    decreases entities.len() - i,
{
    if i < entities.len() {
        assert(entities.take(i + 1).drop_last() =~= entities.take(i));
        lemma_named_prefix(entities, fqn, i + 1);
    } else {
        assert(entities.take(i) =~= entities);
    }
}

/// The first entity of a name.
pub fn find_named(entities: &Vec<EntityRecord>, fqn: &str) -> (r: Option<usize>)
    ensures
        match r {
            Some(i) => i < entities@.len() && entity_named(entity_views(entities@), fqn@) == Some(i as int),
            None => entity_named(entity_views(entities@), fqn@) is None,
        },
{
    let ghost all = entity_views(entities@);
    let mut i: usize = 0;
    while i < entities.len()
        invariant
            i <= entities@.len(),
            all == entity_views(entities@),
            entity_named(all.take(i as int), fqn@) is None,
        decreases entities.len() - i,
    {
        assert(all[i as int] == entities@[i as int]@);
        assert(all.take(i + 1).drop_last() =~= all.take(i as int));
        if same(entities[i].fqn.as_str(), fqn) {
            proof {
                lemma_named_prefix(all, fqn@, i + 1);
            }
            return Some(i);
        }
        i = i + 1;
    }
    assert(all.take(i as int) =~= all);
    None
}

spec fn class_views(v: Seq<FeatureClass>) -> Seq<FeatureClassView> {
    v.map_values(|x: FeatureClass| x@)
}

spec fn entry_views(v: Seq<FeatureEntryPoint>) -> Seq<FeatureEntryPointView> {
    v.map_values(|x: FeatureEntryPoint| x@)
}

spec fn call_views(v: Seq<FeatureCall>) -> Seq<FeatureCallView> {
    v.map_values(|x: FeatureCall| x@)
}

fn list_classes(entities: &Vec<EntityRecord>, types: &TextSet) -> (r: Vec<FeatureClass>)
    ensures
        class_views(r@) == stable_sorted(
            class_details(entity_views(entities@), types.texts(), types.texts().len() as int),
            by_methods(),
        ),
{
    let ghost all = entity_views(entities@);
    let n: usize = types.len();
    let mut r: Vec<FeatureClass> = Vec::new();
    let mut i: usize = 0;
    assert(class_views(r@) =~= Seq::empty());
    while i < n
        invariant
            n == types.texts().len(),
            all == entity_views(entities@),
            i <= n,
            class_views(r@) == class_details(all, types.texts(), i as int),
        decreases n - i,
    {
        match find_named(entities, types.text_at(i).as_str()) {
            Some(at) => {
                let e = &entities[at];
                assert(all[at as int] == e@);
                let (method_count, field_count) = count_members(entities, e.fqn.as_str());
                let ghost before = class_views(r@);
                let item = FeatureClass {
                    fqn: e.fqn.clone(),
                    label: e.label.clone(),
                    entity_type: e.entity_type.cell_type_str().to_owned(),
                    file: e.witness.file.clone(),
                    line: e.witness.start_line,
                    method_count,
                    field_count,
                };
                let ghost iv = item@;
                r.push(item);
                assert(class_views(r@) =~= before.push(iv));
            },
            None => {},
        }
        i = i + 1;
    }
    let ghost le = |a: FeatureClass, b: FeatureClass| by_methods()(a@, b@);
    let compare = |a: &FeatureClass, b: &FeatureClass| -> (t: bool)
        ensures
            t == by_methods()(a@, b@),
        { a.method_count >= b.method_count };
    proof {
        lemma_sorted_map(r@, |x: FeatureClass| x@, le, by_methods());
    }
    sort_stable(r, &compare, Ghost(le))
}

fn count_calls(links: &Vec<Incidence>, cells: &TextSet, cell_id: &str) -> (r: (usize, usize))
    ensures
        r.0 == outside_callers(links@.map_values(|i: Incidence| i@), cells.texts(), cell_id@),
        r.1 == calls_made(links@.map_values(|i: Incidence| i@), cell_id@),
{
    let ghost all = links@.map_values(|i: Incidence| i@);
    let mut callers: usize = 0;
    let mut callees: usize = 0;
    let mut i: usize = 0;
    while i < links.len()
        invariant
            i <= links@.len(),
            all == links@.map_values(|i: Incidence| i@),
            callers <= i,
            callees <= i,
            callers == outside_callers(all.take(i as int), cells.texts(), cell_id@),
            callees == calls_made(all.take(i as int), cell_id@),
        decreases links.len() - i,
    {
        let l = &links[i];
        assert(all[i as int] == l@);
        assert(all.take(i + 1).drop_last() =~= all.take(i as int));
        if names_call(l.relation_type.as_str()) {
            if same(l.to_cell_id.as_str(), cell_id) && !cells.has(l.from_cell_id.as_str()) {
                callers = callers + 1;
            }
            if same(l.from_cell_id.as_str(), cell_id) {
                callees = callees + 1;
            }
        }
        i = i + 1;
    }
    assert(all.take(i as int) =~= all);
    (callers, callees)
}

fn list_entries(space_data: &SpaceData, cells: &TextSet) -> (r: Vec<FeatureEntryPoint>)
    ensures
        entry_views(r@) == stable_sorted(
            feature_entries(space_data@.entities, space_data@.links, cells.texts()),
            by_callers(),
        ),
{
    let ghost space = space_data@;
    let ghost all = space.entities;
    let mut r: Vec<FeatureEntryPoint> = Vec::new();
    let mut i: usize = 0;
    assert(entry_views(r@) =~= feature_entries(all.take(0), space.links, cells.texts()));
    while i < space_data.entities.len()
        invariant
            i <= space_data.entities@.len(),
            space == space_data@,
            all == space.entities,
            entry_views(r@) == feature_entries(all.take(i as int), space.links, cells.texts()),
        decreases space_data.entities.len() - i,
    {
        let e = &space_data.entities[i];
        assert(all[i as int] == e@);
        assert(all.take(i + 1).drop_last() =~= all.take(i as int));
        if callable(e.entity_type) && cells.has(e.cell_id.as_str()) {
            let (caller_count, callee_count) = count_calls(&space_data.incidences, cells, e.cell_id.as_str());
            if caller_count > 0 {
                let ghost before = entry_views(r@);
                let item = FeatureEntryPoint {
                    fqn: e.fqn.clone(),
                    label: e.label.clone(),
                    file: e.witness.file.clone(),
                    line: e.witness.start_line,
                    caller_count,
                    callee_count,
                };
                let ghost iv = item@;
                r.push(item);
                assert(entry_views(r@) =~= before.push(iv));
            }
        }
        i = i + 1;
    }
    assert(all.take(i as int) =~= all);
    let ghost le = |a: FeatureEntryPoint, b: FeatureEntryPoint| by_callers()(a@, b@);
    let compare = |a: &FeatureEntryPoint, b: &FeatureEntryPoint| -> (t: bool)
        ensures
            t == by_callers()(a@, b@),
        { a.caller_count >= b.caller_count };
    proof {
        lemma_sorted_map(r@, |x: FeatureEntryPoint| x@, le, by_callers());
    }
    sort_stable(r, &compare, Ghost(le))
}

fn list_calls(space_data: &SpaceData, cells: &TextSet) -> (r: (Vec<FeatureCall>, TextSet))
    ensures
        call_views(r.0@) == feature_calls(space_data@.index, space_data@.links, cells.texts()),
        r.1.texts() == outside_classes(space_data@.index, space_data@.links, cells.texts()),
{
    let ghost space = space_data@;
    let ghost all = space.links;
    let mut calls: Vec<FeatureCall> = Vec::new();
    let mut outside = TextSet::new();
    let mut i: usize = 0;
    assert(call_views(calls@) =~= feature_calls(space.index, all.take(0), cells.texts()));
    while i < space_data.incidences.len()
        invariant
            i <= space_data.incidences@.len(),
            space == space_data@,
            all == space.links,
            call_views(calls@) == feature_calls(space.index, all.take(i as int), cells.texts()),
            outside.texts() == outside_classes(space.index, all.take(i as int), cells.texts()),
        decreases space_data.incidences.len() - i,
    {
        let l = &space_data.incidences[i];
        assert(all[i as int] == l@);
        assert(all.take(i + 1).drop_last() =~= all.take(i as int));
        if !same(l.relation_type.as_str(), "java.contained_in") && cells.has(l.from_cell_id.as_str()) {
            let to = name_or_empty(space_data, l.to_cell_id.as_str());
            if cells.has(l.to_cell_id.as_str()) {
                let ghost before = call_views(calls@);
                let item = FeatureCall {
                    from: name_or_empty(space_data, l.from_cell_id.as_str()),
                    to,
                    relation_type: l.relation_type.clone(),
                };
                let ghost iv = item@;
                calls.push(item);
                assert(call_views(calls@) =~= before.push(iv));
            } else if !to.as_str().is_empty() {
                outside.add_text(class_name(to.as_str()));
            }
        }
        i = i + 1;
    }
    assert(all.take(i as int) =~= all);
    (calls, outside)
}

/// The texts of a set in ascending order.
pub fn sorted_texts(set: &TextSet) -> (r: Vec<String>)
    ensures
        texts(r@) == stable_sorted(set.texts(), by_text()),
{
    let ghost all = set.texts();
    let n: usize = set.len();
    let mut v: Vec<String> = Vec::new();
    let mut i: usize = 0;
    while i < n
        invariant
            n == all.len(),
            all == set.texts(),
            i <= n,
            texts(v@) == all.take(i as int),
        decreases n - i,
    {
        let ghost before = texts(v@);
        v.push(set.text_at(i).clone());
        i = i + 1;
        assert(texts(v@) =~= before.push(all[i - 1]));
        assert(texts(v@) =~= all.take(i as int));
    }
    assert(all.take(i as int) =~= all);
    let ghost le = |a: String, b: String| lex_le(a@, b@);
    let compare = |a: &String, b: &String| -> (t: bool)
        ensures
            t == lex_le(a@, b@),
        { at_most(a.as_str(), b.as_str()) };
    proof {
        assert forall|a: String, b: String| #[trigger] le(a, b) || le(b, a) by {
            lemma_lex_total(a@, b@);
        }
        assert forall|a: String, b: String, c: String| #[trigger] le(a, b) && #[trigger] le(b, c) implies le(a, c) by {
            lemma_lex_transitive(a@, b@, c@);
        }
        assert(total_preorder(le));
        lemma_sorted_map(v@, |s: String| s@, le, by_text());
    }
    sort_stable(v, &compare, Ghost(le))
}

fn list_data_classes(classes: &Vec<FeatureClass>) -> (r: Vec<String>)
    ensures
        texts(r@) == data_classes(class_views(classes@)),
{
    let ghost all = class_views(classes@);
    let mut r: Vec<String> = Vec::new();
    let mut i: usize = 0;
    assert(texts(r@) =~= Seq::empty());
    while i < classes.len()
        invariant
            i <= classes@.len(),
            all == class_views(classes@),
            texts(r@) == data_classes(all.take(i as int)),
        decreases classes.len() - i,
    {
        let c = &classes[i];
        assert(all[i as int] == c@);
        assert(all.take(i + 1).drop_last() =~= all.take(i as int));
        if c.field_count > c.method_count / 2 && c.field_count >= 3 {
            let ghost before = texts(r@);
            r.push(c.fqn.clone());
            assert(texts(r@) =~= before.push(c@.fqn));
        }
        i = i + 1;
    }
    assert(all.take(i as int) =~= all);
    r
}

fn count_in(entities: &Vec<EntityRecord>, cells: &TextSet, fields: bool) -> (r: usize)
    ensures
        r == members_in(entity_views(entities@), cells.texts(), fields),
{
    let ghost all = entity_views(entities@);
    let mut n: usize = 0;
    let mut i: usize = 0;
    while i < entities.len()
        invariant
            i <= entities@.len(),
            all == entity_views(entities@),
            n <= i,
            n == members_in(all.take(i as int), cells.texts(), fields),
        decreases entities.len() - i,
    {
        let e = &entities[i];
        assert(all[i as int] == e@);
        assert(all.take(i + 1).drop_last() =~= all.take(i as int));
        let counts: bool = if fields {
            e.entity_type == JavaEntityType::Field
        } else {
            callable(e.entity_type)
        };
        if counts && cells.has(e.cell_id.as_str()) {
            n = n + 1;
        }
        i = i + 1;
    }
    assert(all.take(i as int) =~= all);
    n
}

/// A feature by a keyword that is at hand in lower case.
pub fn analyze_feature_lower(space_data: &SpaceData, keyword: &str, keyword_lower: &str) -> (r: Result<
    FeatureResult,
    String,
>)
    ensures
        feature_result(r) == feature_of(space_data@, keyword@, keyword_lower@),
{
    assert(entity_views(space_data.entities@) == space_data@.entities);
    let types = find_types(&space_data.entities, keyword_lower);
    if types.len() == 0 {
        let mut reason = "No classes found matching keyword: ".to_owned();
        reason.append(keyword);
        return Err(reason);
    }
    let cells = find_cells(&space_data.entities, &types);
    let matched_classes = list_classes(&space_data.entities, &types);
    let entry_points = list_entries(space_data, &cells);
    let (internal_calls, outside) = list_calls(space_data, &cells);
    let data_entities = list_data_classes(&matched_classes);
    Ok(
        FeatureResult {
            keyword: keyword.to_owned(),
            matched_classes,
            entry_points,
            internal_calls,
            external_dependencies: sorted_texts(&outside),
            data_entities,
            total_methods: count_in(&space_data.entities, &cells, false),
            total_fields: count_in(&space_data.entities, &cells, true),
        },
    )
}

/// Everything that belongs to the feature named by a keyword.
pub fn analyze_feature(space_data: &SpaceData, keyword: &str) -> (r: Result<FeatureResult, String>)
    ensures
        feature_result(r) == feature_of(space_data@, keyword@, lowercase(keyword@)),
{
    let lower = keyword.to_lowercase();
    analyze_feature_lower(space_data, keyword, lower.as_str())
}

} // verus!
