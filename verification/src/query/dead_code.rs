//! Methods and types that nothing refers to.

use vstd::prelude::*;

use crate::lines::{begins, lines, lines_of, starts_with, trim_start, trimmed_start};
use crate::model::entity::{cell_type_of, JavaEntityType};
use crate::model::graph::LinkView;
use crate::model::space_data::{entry_of, index_view, EntityRecord, EntityView, SpaceData, SpaceView};
use crate::order::{lemma_sorted_map, sort_stable, stable_sorted, total_preorder};
use crate::query::feature::{is_type_kind, type_like};
use crate::query::java::{accessor_name, is_accessor};
use crate::query::resolve::{entity_views, fqn_of_cell, name_of};
use crate::text::{at_most, chars_of, lemma_lex_total, lemma_lex_transitive, lex_le, same, string_of};
use crate::text_map::{lookup, TextMap};
use crate::text_set::{including, TextSet};

verus! {

#[derive(Debug)]
pub struct DeadCodeEntry {
    pub fqn: String,
    pub entity_type: String,
    pub file: String,
    pub line: u32,
    /// high, medium or low: how likely this is truly dead.
    pub confidence: String,
    pub reason: String,
}

#[verifier::ext_equal]
pub struct DeadCodeEntryView {
    pub fqn: Seq<char>,
    pub entity_type: Seq<char>,
    pub file: Seq<char>,
    pub line: u32,
    pub confidence: Seq<char>,
    pub reason: Seq<char>,
}

impl View for DeadCodeEntry {
    type V = DeadCodeEntryView;

    open spec fn view(&self) -> DeadCodeEntryView {
        DeadCodeEntryView {
            fqn: self.fqn@,
            entity_type: self.entity_type@,
            file: self.file@,
            line: self.line,
            confidence: self.confidence@,
            reason: self.reason@,
        }
    }
}

#[derive(Debug)]
pub struct DeadCodeResult {
    pub unused_methods: Vec<DeadCodeEntry>,
    pub unused_classes: Vec<DeadCodeEntry>,
    pub total: usize,
    pub note: String,
}

#[verifier::ext_equal]
pub struct DeadCodeResultView {
    pub unused_methods: Seq<DeadCodeEntryView>,
    pub unused_classes: Seq<DeadCodeEntryView>,
    pub total: usize,
    pub note: Seq<char>,
}

impl View for DeadCodeResult {
    type V = DeadCodeResultView;

    open spec fn view(&self) -> DeadCodeResultView {
        DeadCodeResultView {
            unused_methods: self.unused_methods@.map_values(|x: DeadCodeEntry| x@),
            unused_classes: self.unused_classes@.map_values(|x: DeadCodeEntry| x@),
            total: self.total,
            note: self.note@,
        }
    }
}

/// A relation that uses a member.
pub open spec fn is_reference(relation: Seq<char>) -> bool {
    relation == "java.calls"@ || relation == "java.constructs"@ || relation == "java.field_access"@
}

/// A relation that uses a type.
pub open spec fn is_type_use(relation: Seq<char>) -> bool {
    ||| relation == "java.extends"@
    ||| relation == "java.implements"@
    ||| relation == "java.imports"@
    ||| relation == "java.type_reference"@
    ||| relation == "java.throws"@
    ||| relation == "java.catches"@
}

/// The names that relations make interesting.
#[verifier::ext_equal]
pub struct UseView {
    pub referenced: Seq<Seq<char>>,
    pub type_referenced: Seq<Seq<char>>,
    pub annotated: Seq<Seq<char>>,
    pub overriding: Seq<Seq<char>>,
}

pub open spec fn with_name(list: Seq<Seq<char>>, name: Option<Seq<char>>) -> Seq<Seq<char>> {
    match name {
        Some(n) => including(list, n),
        None => list,
    }
}

pub open spec fn uses_in(index: Seq<(Seq<char>, Seq<char>)>, links: Seq<LinkView>) -> UseView
    decreases links.len(),
{
    if links.len() == 0 {
        UseView {
            referenced: Seq::empty(),
            type_referenced: Seq::empty(),
            annotated: Seq::empty(),
            overriding: Seq::empty(),
        }
    } else {
        let before = uses_in(index, links.drop_last());
        let l = links.last();
        let from = name_of(index, l.from);
        let to = name_of(index, l.to);
        if is_reference(l.relation) {
            UseView { referenced: with_name(before.referenced, to), ..before }
        } else if is_type_use(l.relation) {
            UseView { type_referenced: with_name(before.type_referenced, to), ..before }
        } else if l.relation == "java.annotated_with"@ {
            UseView { annotated: with_name(before.annotated, from), ..before }
        } else if l.relation == "java.overrides"@ {
            UseView { overriding: with_name(before.overriding, from), ..before }
        } else {
            before
        }
    }
}

/// The part before the last dot; all of it when there is none.
pub open spec fn parent_name(fqn: Seq<char>) -> Seq<char> {
    match last_dot(fqn) {
        Some(i) => fqn.take(i),
        None => fqn,
    }
}

pub open spec fn last_dot(s: Seq<char>) -> Option<int>
    decreases s.len(),
{
    if s.len() == 0 {
        None
    } else if s.last() == '.' {
        Some(s.len() - 1)
    } else {
        last_dot(s.drop_last())
    }
}

/// The declaration starts with `private`, as far as its line is at hand.
pub open spec fn is_private(e: EntityView, sources: Seq<(Seq<char>, Seq<char>)>) -> bool {
    match lookup(sources, e.witness.file) {
        Some(content) => {
            let k = e.witness.start_line - 1;
            0 <= k < lines(content).len() && begins(trimmed_start(lines(content)[k]), "private"@)
        },
        None => false,
    }
}

/// How likely an unreferenced method is dead, and why.
pub open spec fn verdict_on_method(
    e: EntityView,
    annotated: Seq<Seq<char>>,
    sources: Seq<(Seq<char>, Seq<char>)>,
) -> (Seq<char>, Seq<char>) {
    if annotated.contains(e.fqn) || annotated.contains(parent_name(e.fqn)) {
        (
            "low"@,
            "Unreferenced, but the method or its class is annotated — may be a framework callback"@,
        )
    } else if accessor_name(e.label) {
        (
            "low"@,
            "Unreferenced bean accessor — may be called via frameworks or expression languages"@,
        )
    } else if is_private(e, sources) {
        ("high"@, "Private method with no callers in its own class"@)
    } else {
        (
            "medium"@,
            "No callers in the analyzed sources — may be an entry point or externally invoked"@,
        )
    }
}

pub open spec fn verdict_on_type(fqn: Seq<char>, annotated: Seq<Seq<char>>) -> (Seq<char>, Seq<char>) {
    if annotated.contains(fqn) {
        (
            "low"@,
            "Unreferenced, but annotated — may be instantiated by a framework (DI, ORM, etc.)"@,
        )
    } else {
        (
            "medium"@,
            "Neither the type nor any of its members is referenced in the analyzed sources"@,
        )
    }
}

pub open spec fn dead_entry(e: EntityView, verdict: (Seq<char>, Seq<char>)) -> DeadCodeEntryView {
    DeadCodeEntryView {
        fqn: e.fqn,
        entity_type: cell_type_of(e.entity_type),
        file: e.witness.file,
        line: e.witness.start_line,
        confidence: verdict.0,
        reason: verdict.1,
    }
}

/// A method that nothing calls or overrides, and that is no program's entry.
pub open spec fn is_unused_method(e: EntityView, uses: UseView) -> bool {
    e.entity_type == JavaEntityType::Method && e.label != "main"@ && !uses.referenced.contains(e.fqn)
        && !uses.overriding.contains(e.fqn)
}

/// One of the names lies under the prefix.
pub open spec fn any_begins(names: Seq<Seq<char>>, prefix: Seq<char>) -> bool {
    exists|i: int| 0 <= i < names.len() && begins(#[trigger] names[i], prefix)
}

/// A program's entry lies under the prefix.
pub open spec fn is_main_under(e: EntityView, prefix: Seq<char>) -> bool {
    e.label == "main"@ && begins(e.fqn, prefix) && e.entity_type == JavaEntityType::Method
}

pub open spec fn has_main(entities: Seq<EntityView>, prefix: Seq<char>) -> bool {
    exists|i: int| 0 <= i < entities.len() && is_main_under(#[trigger] entities[i], prefix)
}

/// A type that is not used, nor any of its members, and that holds no
/// program's entry.
pub open spec fn is_unused_type(e: EntityView, uses: UseView, entities: Seq<EntityView>) -> bool {
    let prefix = e.fqn + "."@;
    is_type_kind(e.entity_type) && !uses.referenced.contains(e.fqn) && !uses.type_referenced.contains(e.fqn)
        && !any_begins(uses.referenced, prefix) && !any_begins(uses.type_referenced, prefix) && !has_main(
        entities,
        prefix,
    )
}

/// The unused methods among the first entities.
pub open spec fn unused_methods_in(
    entities: Seq<EntityView>,
    uses: UseView,
    sources: Seq<(Seq<char>, Seq<char>)>,
) -> Seq<DeadCodeEntryView>
    decreases entities.len(),
{
    if entities.len() == 0 {
        Seq::empty()
    } else {
        let before = unused_methods_in(entities.drop_last(), uses, sources);
        let e = entities.last();
        if is_unused_method(e, uses) {
            before.push(dead_entry(e, verdict_on_method(e, uses.annotated, sources)))
        } else {
            before
        }
    }
}

/// The unused types among the first entities of all.
pub open spec fn unused_types_in(entities: Seq<EntityView>, uses: UseView, all: Seq<EntityView>) -> Seq<
    DeadCodeEntryView,
>
    decreases entities.len(),
{
    if entities.len() == 0 {
        Seq::empty()
    } else {
        let before = unused_types_in(entities.drop_last(), uses, all);
        let e = entities.last();
        if is_unused_type(e, uses, all) {
            before.push(dead_entry(e, verdict_on_type(e.fqn, uses.annotated)))
        } else {
            before
        }
    }
}

pub open spec fn rank(confidence: Seq<char>) -> int {
    if confidence == "high"@ {
        0
    } else if confidence == "medium"@ {
        1
    } else {
        2
    }
}

/// The most likely first, then by name.
pub open spec fn by_likelihood() -> spec_fn(DeadCodeEntryView, DeadCodeEntryView) -> bool {
    |a: DeadCodeEntryView, b: DeadCodeEntryView|
        rank(a.confidence) < rank(b.confidence) || rank(a.confidence) == rank(b.confidence) && lex_le(a.fqn, b.fqn)
}

/// What is unused in a space, as far as its relations show.
pub open spec fn dead_code_in(space: SpaceView, sources: Seq<(Seq<char>, Seq<char>)>) -> DeadCodeResultView {
    let uses = uses_in(space.index, space.links);
    let methods = unused_methods_in(space.entities, uses, sources);
    let types = unused_types_in(space.entities, uses, space.entities);
    DeadCodeResultView {
        unused_methods: stable_sorted(methods, by_likelihood()),
        unused_classes: stable_sorted(types, by_likelihood()),
        total: (methods.len() + types.len()) as usize,
        note: "Static analysis of the lifted sources. Invocations via reflection, DI containers, configuration files, or external callers are not visible — treat 'medium'/'low' entries as candidates to verify, not verdicts."@,
    }
}

/// The names that relations make interesting.
struct Uses {
    referenced: TextSet,
    type_referenced: TextSet,
    annotated: TextSet,
    overriding: TextSet,
}

impl View for Uses {
    type V = UseView;

    closed spec fn view(&self) -> UseView {
        UseView {
            referenced: self.referenced.texts(),
            type_referenced: self.type_referenced.texts(),
            annotated: self.annotated.texts(),
            overriding: self.overriding.texts(),
        }
    }
}

fn note_name(set: &mut TextSet, name: Option<&String>)
    ensures
        final(set).texts() == with_name(
            old(set).texts(),
            match name {
                Some(n) => Some(n@),
                None => None,
            },
        ),
{
    match name {
        Some(n) => {
            set.add_text(n.clone());
        },
        None => {},
    }
}

fn collect_uses(space_data: &SpaceData) -> (r: Uses)
    ensures
        r@ == uses_in(space_data@.index, space_data@.links),
{
    let ghost space = space_data@;
    let ghost all = space.links;
    let mut r = Uses {
        referenced: TextSet::new(),
        type_referenced: TextSet::new(),
        annotated: TextSet::new(),
        overriding: TextSet::new(),
    };
    let mut i: usize = 0;
    assert(r@ =~= uses_in(space.index, all.take(0)));
    while i < space_data.incidences.len()
        invariant
            i <= space_data.incidences@.len(),
            space == space_data@,
            all == space.links,
            r@ == uses_in(space.index, all.take(i as int)),
        decreases space_data.incidences.len() - i,
    {
        let l = &space_data.incidences[i];
        assert(all[i as int] == l@);
        assert(all.take(i + 1).drop_last() =~= all.take(i as int));
        let relation = l.relation_type.as_str();
        let from = fqn_of_cell(&space_data.fqn_to_cell_id, l.from_cell_id.as_str());
        let to = fqn_of_cell(&space_data.fqn_to_cell_id, l.to_cell_id.as_str());
        if same(relation, "java.calls") || same(relation, "java.constructs") || same(relation, "java.field_access") {
            note_name(&mut r.referenced, to);
        } else if same(relation, "java.extends") || same(relation, "java.implements") || same(relation, "java.imports")
            || same(relation, "java.type_reference") || same(relation, "java.throws") || same(
            relation,
            "java.catches",
        ) {
            note_name(&mut r.type_referenced, to);
        } else if same(relation, "java.annotated_with") {
            note_name(&mut r.annotated, from);
        } else if same(relation, "java.overrides") {
            note_name(&mut r.overriding, from);
        }
        i = i + 1;
        assert(r@ =~= uses_in(space.index, all.take(i as int)));
    }
    assert(all.take(i as int) =~= all);
    r
}

fn parent_fqn(fqn: &str) -> (r: String)
    ensures
        r@ == parent_name(fqn@),
{
    let chars = chars_of(fqn);
    let mut n: usize = chars.len();
    assert(chars@.take(n as int) =~= fqn@);
    while n > 0
        invariant
            n <= chars@.len(),
            chars@ == fqn@,
            last_dot(fqn@) == last_dot(fqn@.take(n as int)),
        decreases n,
    {
        assert(fqn@.take(n as int).drop_last() =~= fqn@.take(n - 1));
        if chars[n - 1] == '.' {
            let r = string_of(vstd::slice::slice_subrange(chars.as_slice(), 0, n - 1));
            assert(fqn@.subrange(0, n - 1) =~= fqn@.take(n - 1));
            return r;
        }
        n = n - 1;
    }
    fqn.to_owned()
}

fn declared_private(entity: &EntityRecord, source_files: &TextMap<String>) -> (r: bool)
    ensures
        r == is_private(entity@, index_view(*source_files)),
{
    match entry_of(source_files, entity.witness.file.as_str()) {
        Some(content) => {
            let list = lines_of(chars_of(content.as_str()).as_slice());
            let ghost all = lines(content@);
            assert(crate::lines::char_lists(list@) == all);
            let line: usize = entity.witness.start_line as usize;
            if line == 0 || line > list.len() {
                return false;
            }
            assert(all[line - 1] == list@[line - 1]@);
            starts_with(trim_start(list[line - 1].as_slice()), "private")
        },
        None => false,
    }
}

fn judge_method(entity: &EntityRecord, annotated: &TextSet, source_files: &TextMap<String>) -> (r: (
    &'static str,
    &'static str,
))
    ensures
        (r.0@, r.1@) == verdict_on_method(entity@, annotated.texts(), index_view(*source_files)),
{
    if annotated.has(entity.fqn.as_str()) || annotated.has(parent_fqn(entity.fqn.as_str()).as_str()) {
        (
            "low",
            "Unreferenced, but the method or its class is annotated — may be a framework callback",
        )
    } else if is_accessor(entity.label.as_str()) {
        ("low", "Unreferenced bean accessor — may be called via frameworks or expression languages")
    } else if declared_private(entity, source_files) {
        ("high", "Private method with no callers in its own class")
    } else {
        ("medium", "No callers in the analyzed sources — may be an entry point or externally invoked")
    }
}

fn judge_type(fqn: &str, annotated: &TextSet) -> (r: (&'static str, &'static str))
    ensures
        (r.0@, r.1@) == verdict_on_type(fqn@, annotated.texts()),
{
    if annotated.has(fqn) {
        (
            "low",
            "Unreferenced, but annotated — may be instantiated by a framework (DI, ORM, etc.)",
        )
    } else {
        ("medium", "Neither the type nor any of its members is referenced in the analyzed sources")
    }
}

fn make_entry(e: &EntityRecord, verdict: (&'static str, &'static str)) -> (r: DeadCodeEntry)
    ensures
        r@ == dead_entry(e@, (verdict.0@, verdict.1@)),
{
    DeadCodeEntry {
        fqn: e.fqn.clone(),
        entity_type: e.entity_type.cell_type_str().to_owned(),
        file: e.witness.file.clone(),
        line: e.witness.start_line,
        confidence: verdict.0.to_owned(),
        reason: verdict.1.to_owned(),
    }
}

fn some_begins(names: &TextSet, prefix: &str) -> (r: bool)
    ensures
        r == any_begins(names.texts(), prefix@),
{
    let n: usize = names.len();
    let mut i: usize = 0;
    while i < n
        invariant
            n == names.texts().len(),
            i <= n,
            forall|j: int| 0 <= j < i ==> !begins(#[trigger] names.texts()[j], prefix@),
        decreases n - i,
    {
        if starts_with(chars_of(names.text_at(i).as_str()).as_slice(), prefix) {
            assert(begins(names.texts()[i as int], prefix@));
            return true;
        }
        i = i + 1;
    }
    false
}

fn finds_main(entities: &Vec<EntityRecord>, prefix: &str) -> (r: bool)
    ensures
        r == has_main(entity_views(entities@), prefix@),
{
    let ghost all = entity_views(entities@);
    let mut i: usize = 0;
    while i < entities.len()
        invariant
            i <= entities@.len(),
            all == entity_views(entities@),
            forall|j: int| 0 <= j < i ==> !is_main_under(#[trigger] all[j], prefix@),
        decreases entities.len() - i,
    {
        let e = &entities[i];
        assert(all[i as int] == e@);
        if e.entity_type == JavaEntityType::Method && same(e.label.as_str(), "main") && starts_with(
            chars_of(e.fqn.as_str()).as_slice(),
            prefix,
        ) {
            assert(is_main_under(all[i as int], prefix@));
            return true;
        }
        i = i + 1;
    }
    false
}

fn unused_method(e: &EntityRecord, uses: &Uses) -> (r: bool)
    ensures
        r == is_unused_method(e@, uses@),
{
    e.entity_type == JavaEntityType::Method && !same(e.label.as_str(), "main") && !uses.referenced.has(e.fqn.as_str())
        && !uses.overriding.has(e.fqn.as_str())
}

fn unused_type(e: &EntityRecord, uses: &Uses, entities: &Vec<EntityRecord>) -> (r: bool)
    ensures
        r == is_unused_type(e@, uses@, entity_views(entities@)),
{
    if !type_like(e.entity_type) || uses.referenced.has(e.fqn.as_str()) || uses.type_referenced.has(e.fqn.as_str()) {
        return false;
    }
    let mut prefix = e.fqn.clone();
    prefix.append(".");
    !some_begins(&uses.referenced, prefix.as_str()) && !some_begins(&uses.type_referenced, prefix.as_str())
        && !finds_main(entities, prefix.as_str())
}

spec fn dead_views(v: Seq<DeadCodeEntry>) -> Seq<DeadCodeEntryView> {
    v.map_values(|x: DeadCodeEntry| x@)
}

fn rank_of(confidence: &str) -> (r: u8)
    ensures
        r == rank(confidence@),
{
    if same(confidence, "high") {
        0
    } else if same(confidence, "medium") {
        1
    } else {
        2
    }
}

fn sort_entries(v: Vec<DeadCodeEntry>) -> (r: Vec<DeadCodeEntry>)
    ensures
        dead_views(r@) == stable_sorted(dead_views(v@), by_likelihood()),
{
    let ghost le = |a: DeadCodeEntry, b: DeadCodeEntry| by_likelihood()(a@, b@);
    let compare = |a: &DeadCodeEntry, b: &DeadCodeEntry| -> (t: bool)
        ensures
            t == by_likelihood()(a@, b@),
        {
            let x: u8 = rank_of(a.confidence.as_str());
            let y: u8 = rank_of(b.confidence.as_str());
            x < y || x == y && at_most(a.fqn.as_str(), b.fqn.as_str())
        };
    proof {
        assert forall|a: DeadCodeEntry, b: DeadCodeEntry| #[trigger] le(a, b) || le(b, a) by {
            lemma_lex_total(a@.fqn, b@.fqn);
        }
        assert forall|a: DeadCodeEntry, b: DeadCodeEntry, c: DeadCodeEntry| #[trigger]
            le(a, b) && #[trigger] le(b, c) implies le(a, c) by {
            if lex_le(a@.fqn, b@.fqn) && lex_le(b@.fqn, c@.fqn) {
                lemma_lex_transitive(a@.fqn, b@.fqn, c@.fqn);
            }
        }
        assert(total_preorder(le));
        lemma_sorted_map(v@, |x: DeadCodeEntry| x@, le, by_likelihood());
    }
    sort_stable(v, &compare, Ghost(le))
}

proof fn lemma_unused_kinds(e: EntityView, uses: UseView, all: Seq<EntityView>)
    ensures
        !(is_unused_method(e, uses) && is_unused_type(e, uses, all)),
{
}

/// What is unused in a space.
pub fn dead_code(space_data: &SpaceData, source_files: &TextMap<String>) -> (r: DeadCodeResult)
    ensures
        r@ == dead_code_in(space_data@, index_view(*source_files)),
{
    let ghost space = space_data@;
    let ghost all = entity_views(space_data.entities@);
    let ghost sources = index_view(*source_files);
    let uses = collect_uses(space_data);
    let ghost u = uses@;
    let mut methods: Vec<DeadCodeEntry> = Vec::new();
    let mut types: Vec<DeadCodeEntry> = Vec::new();
    let mut i: usize = 0;
    assert(dead_views(methods@) =~= unused_methods_in(all.take(0), u, sources));
    assert(dead_views(types@) =~= unused_types_in(all.take(0), u, all));
    while i < space_data.entities.len()
        invariant
            i <= space_data.entities@.len(),
            all == entity_views(space_data.entities@),
            sources == index_view(*source_files),
            u == uses@,
            methods@.len() + types@.len() <= i,
            dead_views(methods@) == unused_methods_in(all.take(i as int), u, sources),
            dead_views(types@) == unused_types_in(all.take(i as int), u, all),
        decreases space_data.entities.len() - i,
    {
        let e = &space_data.entities[i];
        assert(all[i as int] == e@);
        assert(all.take(i + 1).drop_last() =~= all.take(i as int));
        proof {
            lemma_unused_kinds(e@, u, all);
        }
        if unused_method(e, &uses) {
            let ghost before = dead_views(methods@);
            let entry = make_entry(e, judge_method(e, &uses.annotated, source_files));
            let ghost ev = entry@;
            methods.push(entry);
            assert(dead_views(methods@) =~= before.push(ev));
        } else if unused_type(e, &uses, &space_data.entities) {
            let ghost before = dead_views(types@);
            let entry = make_entry(e, judge_type(e.fqn.as_str(), &uses.annotated));
            let ghost ev = entry@;
            types.push(entry);
            assert(dead_views(types@) =~= before.push(ev));
        }
        i = i + 1;
    }
    assert(all.take(i as int) =~= all);
    assert(all == space.entities);
    let total: usize = methods.len() + types.len();
    DeadCodeResult {
        unused_methods: sort_entries(methods),
        unused_classes: sort_entries(types),
        total,
        note: "Static analysis of the lifted sources. Invocations via reflection, DI containers, configuration files, or external callers are not visible — treat 'medium'/'low' entries as candidates to verify, not verdicts.".to_owned(),
    }
}

} // verus!
